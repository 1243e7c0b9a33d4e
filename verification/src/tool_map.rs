//! Tool definitions on the chat wire, and the map that leads from the names they go by there back
//! to what they are.

use vstd::hash_map::StringHashMap;
use vstd::prelude::*;
use vstd::string::*;

use crate::error::{outcome, ApiError, ErrorView};
use crate::json::{written, Json, JsonMap, JsonView};
use crate::text::{join, position, same, split_once};

verus! {

/// What stands between a namespace and a name in an encoded name.
pub const NS_SEP: &'static str = "__NS__";

/// The kind of tool that an encoded function name maps back to.
#[derive(Debug)]
pub enum ToolKind {
    /// A normal `function` tool, optionally scoped under a namespace.
    Function { namespace: Option<String> },
    /// A custom (freeform) tool whose input is wrapped in `{"input": "..."}`.
    Custom,
}

/// What a [`ToolKind`] is.
pub enum KindView {
    Function { namespace: Option<Seq<char>> },
    Custom,
}

impl DeepView for ToolKind {
    type V = KindView;

    open spec fn deep_view(&self) -> KindView {
        match self {
            ToolKind::Function { namespace } => KindView::Function {
                namespace: namespace.deep_view(),
            },
            ToolKind::Custom => KindView::Custom,
        }
    }
}

impl Clone for ToolKind {
    fn clone(&self) -> (r: Self)
        ensures
            r.deep_view() == self.deep_view(),
    {
        match self {
            ToolKind::Function { namespace } => ToolKind::Function { namespace: namespace.clone() },
            ToolKind::Custom => ToolKind::Custom,
        }
    }
}

/// Maps encoded chat function names back to their [`ToolKind`].
///
/// It is filled while a request is built, and read while the response to it is translated back.
pub struct ToolReverseMap {
    kinds: StringHashMap<ToolKind>,
}

impl View for ToolReverseMap {
    type V = Map<Seq<char>, KindView>;

    closed spec fn view(&self) -> Map<Seq<char>, KindView> {
        self.kinds@.map_values(|kind: ToolKind| kind.deep_view())
    }
}

/// The single name under which a tool with this namespace and name goes on the chat wire.
pub open spec fn encoded(namespace: Option<Seq<char>>, name: Seq<char>) -> Seq<char> {
    match namespace {
        Some(ns) => if ns.len() > 0 {
            ns + NS_SEP@ + name
        } else {
            name
        },
        None => name,
    }
}

/// The namespace and name that an encoded name is taken apart into: at the first separator, if
/// there is one.
pub open spec fn decoded(encoded: Seq<char>) -> (Option<Seq<char>>, Seq<char>) {
    match position(encoded, NS_SEP@) {
        Some(at) => (Some(encoded.take(at)), encoded.skip(at + NS_SEP@.len())),
        None => (None, encoded),
    }
}

/// Encode a namespace + name pair into a single string.
pub fn encode_name(namespace: Option<&str>, name: &str) -> (r: String)
    ensures
        r@ == encoded(namespace.deep_view(), name@),
{
    match namespace {
        Some(ns) => {
            if !ns.is_empty() {
                join(join(ns, NS_SEP).as_str(), name)
            } else {
                name.to_owned()
            }
        },
        None => name.to_owned(),
    }
}

/// Decode an encoded function name back to (namespace, plain name).
pub fn decode_name(encoded: &str) -> (r: (Option<String>, String))
    ensures
        r.deep_view() == decoded(encoded@),
{
    match split_once(encoded, NS_SEP) {
        Some((ns, name)) => (Some(ns.to_owned()), name.to_owned()),
        None => (None, encoded.to_owned()),
    }
}

impl ToolReverseMap {
    /// Create an empty map.
    pub fn new() -> (r: Self)
        ensures
            r@ == Map::<Seq<char>, KindView>::empty(),
    {
        let r = ToolReverseMap { kinds: StringHashMap::new() };
        assert(r@ =~= Map::<Seq<char>, KindView>::empty());
        r
    }

    /// Look up an encoded function name.
    pub fn get(&self, encoded_name: &str) -> (r: Option<&ToolKind>)
        ensures
            match r {
                Some(kind) => self@.dom().contains(encoded_name@) && self@[encoded_name@]
                    == kind.deep_view(),
                None => !self@.dom().contains(encoded_name@),
            },
    {
        self.kinds.get(encoded_name)
    }
}

impl Default for ToolReverseMap {
    fn default() -> (r: Self)
        ensures
            r@ == Map::<Seq<char>, KindView>::empty(),
    {
        ToolReverseMap::new()
    }
}

/// The message for a second tool of an encoded name.
pub open spec fn collision(encoded: Seq<char>) -> Seq<char> {
    "tool name collision: encoded name '"@ + encoded + "' is already registered"@
}

impl ToolReverseMap {
    /// Encode a (namespace, name) pair into a single chat function name, register it in the map,
    /// and return the encoded name.
    ///
    /// Returns `Err` on collision with an already-registered name.
    fn register_function(
        &mut self,
        namespace: Option<&str>,
        name: &str,
        kind: ToolKind,
    ) -> (r: Result<String, ApiError>)
        ensures
            ({
                let key = encoded(namespace.deep_view(), name@);
                if old(self)@.dom().contains(key) {
                    &&& r matches Err(fault) && fault.deep_view() == (ErrorView::InvalidRequest {
                        message: collision(key),
                    })
                    &&& final(self)@ == old(self)@
                } else {
                    &&& r matches Ok(name) && name@ == key
                    &&& final(self)@ == old(self)@.insert(key, kind.deep_view())
                }
            }),
    {
        let key = encode_name(namespace, name);
        if self.kinds.contains_key(key.as_str()) {
            let message = join(
                join("tool name collision: encoded name '", key.as_str()).as_str(),
                "' is already registered",
            );
            return Err(ApiError::InvalidRequest { message });
        }
        let ghost before = self@;
        self.kinds.insert(key.clone(), kind);
        assert(self@ =~= before.insert(key@, kind.deep_view()));
        Ok(key)
    }
}

/// A chat function definition: `{"type": "function", "function": ...}`.
pub open spec fn chat_function(function: Map<Seq<char>, JsonView>) -> JsonView {
    JsonView::Object(
        map!["type"@ => JsonView::String("function"@), "function"@ => JsonView::Object(function)],
    )
}

/// `members` with the member `name` of `from`, where `from` has one.
pub open spec fn with_member_of(
    members: Map<Seq<char>, JsonView>,
    from: JsonView,
    name: Seq<char>,
) -> Map<Seq<char>, JsonView> {
    match from.member(name) {
        Some(member) => members.insert(name, member),
        None => members,
    }
}

/// What a `function` tool is on the chat wire: its encoded name, and its description and
/// parameters as far as it has them.
pub open spec fn function_definition(tool: JsonView, encoded: Seq<char>) -> JsonView {
    let named = map!["name"@ => JsonView::String(encoded)];
    chat_function(
        with_member_of(with_member_of(named, tool, "description"@), tool, "parameters"@),
    )
}

/// The schema of a custom tool on the chat wire: one required string, `input`.
pub open spec fn input_schema() -> JsonView {
    let input = JsonView::Object(map!["type"@ => JsonView::String("string"@)]);
    JsonView::Object(
        map![
            "type"@ => JsonView::String("object"@),
            "properties"@ => JsonView::Object(map!["input"@ => input]),
            "required"@ => JsonView::Array(seq![JsonView::String("input"@)]),
        ],
    )
}

/// The definition of a custom tool's input format: its text, or its JSON where it is no string.
pub open spec fn format_definition(tool: JsonView) -> Option<Seq<char>> {
    match tool.member("format"@) {
        Some(format) => match format.member("definition"@) {
            Some(definition) => Some(
                match definition.text() {
                    Some(text) => text,
                    None => written(definition),
                },
            ),
            None => None,
        },
        None => None,
    }
}

/// The description of a custom tool on the chat wire: its own, and below it the definition of its
/// format.
pub open spec fn custom_description(tool: JsonView) -> Seq<char> {
    let own = match tool.text_member("description"@) {
        Some(text) => text,
        None => Seq::empty(),
    };
    match format_definition(tool) {
        Some(definition) => own + "\n\n"@ + definition,
        None => own,
    }
}

/// What a `custom` tool is on the chat wire.
pub open spec fn custom_definition(tool: JsonView, encoded: Seq<char>) -> JsonView {
    chat_function(
        map![
            "name"@ => JsonView::String(encoded),
            "description"@ => JsonView::String(custom_description(tool)),
            "parameters"@ => input_schema(),
        ],
    )
}

/// The namespace of a `function` tool; an empty one is none.
pub open spec fn function_namespace(tool: JsonView) -> Option<Seq<char>> {
    match tool.text_member("namespace"@) {
        Some(ns) => if ns.len() > 0 {
            Some(ns)
        } else {
            None
        },
        None => None,
    }
}

/// What becomes of one tool definition.
pub enum ToolStep {
    /// It has no counterpart on the chat wire and is left out.
    Skipped,
    /// It is malformed.
    Faulty(Seq<char>),
    /// It goes by `name` on the chat wire, where it is defined by `definition`.
    Declared { name: Seq<char>, kind: KindView, definition: JsonView },
}

/// What becomes of a tool definition. Only `function` and `custom` tools have a counterpart.
pub open spec fn tool_step(tool: JsonView) -> ToolStep {
    let kind = tool.text_member("type"@);
    if kind == Some("function"@) {
        match tool.text_member("name"@) {
            Some(name) => {
                let namespace = function_namespace(tool);
                let key = encoded(namespace, name);
                ToolStep::Declared {
                    name: key,
                    kind: KindView::Function { namespace },
                    definition: function_definition(tool, key),
                }
            },
            None => ToolStep::Faulty("function tool missing 'name'"@),
        }
    } else if kind == Some("custom"@) {
        match tool.text_member("name"@) {
            Some(name) => ToolStep::Declared {
                name,
                kind: KindView::Custom,
                definition: custom_definition(tool, name),
            },
            None => ToolStep::Faulty("custom tool missing 'name' field"@),
        }
    } else {
        ToolStep::Skipped
    }
}

/// The chat function definition around a `function` object.
fn chat_function_json(function: JsonMap) -> (r: Json)
    ensures
        r.value() == chat_function(function.members()),
{
    let mut tool = JsonMap::new();
    tool.insert("type".to_owned(), Json::String("function".to_owned()));
    tool.insert("function".to_owned(), Json::Object(function));
    Json::Object(tool)
}

/// Defines a `function` tool for the chat wire.
fn define_function(tool: &Json, key: String) -> (r: Json)
    ensures
        r.value() == function_definition(tool.value(), key@),
{
    let mut function = JsonMap::new();
    function.insert("name".to_owned(), Json::String(key));
    if let Some(description) = tool.get("description") {
        function.insert("description".to_owned(), description.clone());
    }
    if let Some(parameters) = tool.get("parameters") {
        function.insert("parameters".to_owned(), parameters.clone());
    }
    chat_function_json(function)
}

/// Builds the schema of a custom tool's arguments.
fn input_schema_json() -> (r: Json)
    ensures
        r.value() == input_schema(),
{
    let mut input = JsonMap::new();
    input.insert("type".to_owned(), Json::String("string".to_owned()));
    let mut properties = JsonMap::new();
    properties.insert("input".to_owned(), Json::Object(input));
    let mut required: Vec<Json> = Vec::new();
    required.push(Json::String("input".to_owned()));
    assert(required.deep_view() =~= seq![JsonView::String("input"@)]);
    let mut schema = JsonMap::new();
    schema.insert("type".to_owned(), Json::String("object".to_owned()));
    schema.insert("properties".to_owned(), Json::Object(properties));
    schema.insert("required".to_owned(), Json::array(required));
    Json::Object(schema)
}

/// Describes a custom tool for the chat wire.
fn describe_custom(tool: &Json) -> (r: String)
    ensures
        r@ == custom_description(tool.value()),
{
    let own = match tool.get_str("description") {
        Some(text) => text.to_owned(),
        None => String::new(),
    };
    if let Some(format) = tool.get("format") {
        if let Some(definition) = format.get("definition") {
            let definition = match definition.as_str() {
                Some(text) => text.to_owned(),
                None => definition.to_text(),
            };
            return join(join(own.as_str(), "\n\n").as_str(), definition.as_str());
        }
    }
    own
}

/// Defines a `custom` tool for the chat wire.
fn define_custom(tool: &Json, key: String) -> (r: Json)
    ensures
        r.value() == custom_definition(tool.value(), key@),
{
    let mut function = JsonMap::new();
    function.insert("name".to_owned(), Json::String(key));
    function.insert("description".to_owned(), Json::String(describe_custom(tool)));
    function.insert("parameters".to_owned(), input_schema_json());
    chat_function_json(function)
}

/// Translates one tool definition, if it has a counterpart, and registers it.
fn translate_tool(tool: &Json, map: &mut ToolReverseMap) -> (r: Result<Option<Json>, ApiError>)
    ensures
        match tool_step(tool.value()) {
            ToolStep::Skipped => {
                &&& r matches Ok(out) && out is None
                &&& final(map)@ == old(map)@
            },
            ToolStep::Faulty(message) => {
                &&& r matches Err(fault) && fault.deep_view() == (ErrorView::InvalidRequest {
                    message,
                })
                &&& final(map)@ == old(map)@
            },
            ToolStep::Declared { name, kind, definition } => if old(map)@.dom().contains(name) {
                &&& r matches Err(fault) && fault.deep_view() == (ErrorView::InvalidRequest {
                    message: collision(name),
                })
                &&& final(map)@ == old(map)@
            } else {
                &&& r matches Ok(Some(out)) && out.value() == definition
                &&& final(map)@ == old(map)@.insert(name, kind)
            },
        },
{
    let kind = match tool.get_str("type") {
        Some(kind) => kind,
        None => return Ok(None),
    };
    if same(kind, "function") {
        let name = match tool.get_str("name") {
            Some(name) => name,
            None => {
                let message = "function tool missing 'name'".to_owned();
                return Err(ApiError::InvalidRequest { message });
            },
        };
        let namespace = match tool.get_str("namespace") {
            Some(ns) => if ns.is_empty() {
                None
            } else {
                Some(ns)
            },
            None => None,
        };
        let owned = match namespace {
            Some(ns) => Some(ns.to_owned()),
            None => None,
        };
        match map.register_function(namespace, name, ToolKind::Function { namespace: owned }) {
            Ok(key) => Ok(Some(define_function(tool, key))),
            Err(fault) => Err(fault),
        }
    } else if same(kind, "custom") {
        let name = match tool.get_str("name") {
            Some(name) => name,
            None => {
                let message = "custom tool missing 'name' field".to_owned();
                return Err(ApiError::InvalidRequest { message });
            },
        };
        match map.register_function(None, name, ToolKind::Custom) {
            Ok(key) => Ok(Some(define_custom(tool, key))),
            Err(fault) => Err(fault),
        }
    } else {
        Ok(None)
    }
}

/// What a list of tool definitions is translated to from a given map on, and the map after it. The
/// first faulty definition ends the translation; what was registered before it stays.
pub open spec fn translated(tools: Seq<JsonView>, map: Map<Seq<char>, KindView>) -> (
    Result<Seq<JsonView>, ErrorView>,
    Map<Seq<char>, KindView>,
)
    decreases tools.len(),
{
    if tools.len() == 0 {
        (Ok(Seq::empty()), map)
    } else {
        match tool_step(tools.first()) {
            ToolStep::Skipped => translated(tools.drop_first(), map),
            ToolStep::Faulty(message) => (Err(ErrorView::InvalidRequest { message }), map),
            ToolStep::Declared { name, kind, definition } => if map.dom().contains(name) {
                (Err(ErrorView::InvalidRequest { message: collision(name) }), map)
            } else {
                let (rest, after) = translated(tools.drop_first(), map.insert(name, kind));
                (prepended(seq![definition], rest), after)
            },
        }
    }
}

/// A list of definitions with others before it.
pub open spec fn prepended(
    before: Seq<JsonView>,
    rest: Result<Seq<JsonView>, ErrorView>,
) -> Result<Seq<JsonView>, ErrorView> {
    match rest {
        Ok(definitions) => Ok(before + definitions),
        Err(fault) => Err(fault),
    }
}

/// Lists put before a list one after the other are put before it together.
proof fn lemma_prepended(
    first: Seq<JsonView>,
    second: Seq<JsonView>,
    rest: Result<Seq<JsonView>, ErrorView>,
)
    ensures
        prepended(first, prepended(second, rest)) == prepended(first + second, rest),
{
    if let Ok(definitions) = rest {
        assert(first + (second + definitions) =~= (first + second) + definitions);
    }
}

/// Convert a slice of Responses-API tool definitions into chat `{"type":"function",...}` objects,
/// populating `map` for later reverse lookup.
///
/// Tool types that cannot be represented as chat functions (`namespace`, `tool_search`,
/// `image_generation`, `web_search`, and any unknown one) are silently skipped.
pub fn translate_tools(tools: &[Json], map: &mut ToolReverseMap) -> (r: Result<Vec<Json>, ApiError>)
    ensures
        outcome(r) == translated(tools.deep_view(), old(map)@).0,
        final(map)@ == translated(tools.deep_view(), old(map)@).1,
{
    let mut out: Vec<Json> = Vec::new();
    let ghost all = tools.deep_view();
    let mut i: usize = 0;
    assert(all.skip(0) =~= all);
    while i < tools.len()
        invariant
            i <= tools@.len(),
            all == tools.deep_view(),
            translated(all, old(map)@).0 == prepended(
                out.deep_view(),
                translated(all.skip(i as int), map@).0,
            ),
            translated(all, old(map)@).1 == translated(all.skip(i as int), map@).1,
        decreases tools@.len() - i,
    {
        let ghost before = out.deep_view();
        assert(all.skip(i as int).drop_first() =~= all.skip(i + 1));
        assert(all.skip(i as int).first() == tools@[i as int].value());
        match translate_tool(&tools[i], map) {
            Ok(Some(definition)) => {
                out.push(definition);
                assert(out.deep_view() =~= before + seq![definition.value()]);
                proof {
                    lemma_prepended(
                        before,
                        seq![definition.value()],
                        translated(all.skip(i + 1), map@).0,
                    );
                }
            },
            Ok(None) => {},
            Err(fault) => return Err(fault),
        }
        i += 1;
    }
    Ok(out)
}

} // verus!
