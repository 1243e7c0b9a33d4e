//! Build a chat JSON request body from a Responses request.

use vstd::prelude::*;
use vstd::string::*;

use crate::error::{outcome, ApiError, ErrorView};
use crate::json::{read, reads_as, written, Json, JsonMap, JsonView};
use crate::protocol::{
    ContentItem, ContentView, FunctionCallOutputPayload, ItemView, OutputView, ResponseItem,
};
use crate::text::join;
use crate::tool_map::{encode_name, encoded, translate_tools, translated, KindView, ToolReverseMap};

verus! {

/// Tool definitions as the JSON text that they are sent as.
#[derive(Debug)]
pub struct ResponsesApiTools {
    pub raw: String,
}

/// How the answer is to be written.
#[derive(Debug)]
pub struct TextControls {
    pub verbosity: Option<String>,
    /// The schema of a structured answer.
    pub format: Option<Json>,
}

/// A Responses request, as far as a chat request is built from it.
#[derive(Debug)]
pub struct ResponsesApiRequest {
    pub model: String,
    pub instructions: String,
    pub input: Vec<ResponseItem>,
    pub tools: Option<ResponsesApiTools>,
    pub tool_choice: String,
    pub service_tier: Option<String>,
    pub text: Option<TextControls>,
}

/// What a [`ResponsesApiRequest`] asks for.
pub struct RequestView {
    pub model: Seq<char>,
    pub instructions: Seq<char>,
    pub input: Seq<ItemView>,
    /// The text of the tool definitions.
    pub tools: Option<Seq<char>>,
    pub tool_choice: Seq<char>,
    pub service_tier: Option<Seq<char>>,
    /// The schema of a structured answer.
    pub format: Option<JsonView>,
}

impl DeepView for ResponsesApiRequest {
    type V = RequestView;

    open spec fn deep_view(&self) -> RequestView {
        RequestView {
            model: self.model@,
            instructions: self.instructions@,
            input: self.input.deep_view(),
            tools: match self.tools {
                Some(tools) => Some(tools.raw@),
                None => None,
            },
            tool_choice: self.tool_choice@,
            service_tier: self.service_tier.deep_view(),
            format: match self.text {
                Some(text) => text.format.deep_view(),
                None => None,
            },
        }
    }
}

/// The text of a part of a message; images and audio have none.
pub open spec fn part_text(part: ContentView) -> Seq<char> {
    match part {
        ContentView::InputText { text } => text,
        ContentView::OutputText { text } => text,
        ContentView::InputImage { .. } => Seq::empty(),
        ContentView::InputAudio { .. } => Seq::empty(),
    }
}

/// The text of a message: that of its parts, one after the other.
pub open spec fn content_text(content: Seq<ContentView>) -> Seq<char>
    decreases content.len(),
{
    if content.len() == 0 {
        Seq::empty()
    } else {
        content_text(content.drop_last()) + part_text(content.last())
    }
}

/// Join the text parts of a content item slice into a single string.
///
/// Images are expected to have been replaced by text before; whatever text there is gets joined.
pub fn join_content_text(content: &[ContentItem]) -> (r: String)
    ensures
        r@ == content_text(content.deep_view()),
{
    let mut r = String::new();
    let ghost all = content.deep_view();
    let mut i: usize = 0;
    assert(all.take(0) =~= Seq::<ContentView>::empty());
    while i < content.len()
        invariant
            i <= content@.len(),
            all == content.deep_view(),
            r@ == content_text(all.take(i as int)),
        decreases content@.len() - i,
    {
        assert(all.take(i + 1).drop_last() =~= all.take(i as int));
        assert(all.take(i + 1).last() == content@[i as int].deep_view());
        match &content[i] {
            ContentItem::InputText { text } => r.append(text.as_str()),
            ContentItem::OutputText { text } => r.append(text.as_str()),
            ContentItem::InputImage { .. } => {},
            ContentItem::InputAudio { .. } => {},
        }
        assert(r@ =~= content_text(all.take(i + 1)));
        i += 1;
    }
    assert(all.take(i as int) =~= all);
    r
}

/// A message of a role.
pub open spec fn text_message(role: Seq<char>, content: Seq<char>) -> JsonView {
    JsonView::Object(
        map!["role"@ => JsonView::String(role), "content"@ => JsonView::String(content)],
    )
}

/// The assistant's message that makes one call.
pub open spec fn call_message(
    call_id: Seq<char>,
    name: Seq<char>,
    arguments: Seq<char>,
) -> JsonView {
    let function = JsonView::Object(
        map!["name"@ => JsonView::String(name), "arguments"@ => JsonView::String(arguments)],
    );
    let call = JsonView::Object(
        map![
            "id"@ => JsonView::String(call_id),
            "type"@ => JsonView::String("function"@),
            "function"@ => function,
        ],
    );
    JsonView::Object(
        map![
            "role"@ => JsonView::String("assistant"@),
            "tool_calls"@ => JsonView::Array(seq![call]),
        ],
    )
}

/// A text that may be missing.
pub open spec fn nullable(text: Option<Seq<char>>) -> JsonView {
    match text {
        Some(text) => JsonView::String(text),
        None => JsonView::Null,
    }
}

/// The message that answers a call.
pub open spec fn output_message(call_id: Option<Seq<char>>, output: OutputView) -> JsonView {
    let content = match output.body.text() {
        Some(text) => text,
        None => Seq::empty(),
    };
    JsonView::Object(
        map![
            "role"@ => JsonView::String("tool"@),
            "tool_call_id"@ => nullable(call_id),
            "content"@ => JsonView::String(content),
        ],
    )
}

/// The input of a custom tool as the arguments of a function.
pub open spec fn custom_arguments(input: Seq<char>) -> JsonView {
    JsonView::Object(map!["input"@ => JsonView::String(input)])
}

/// Where an item is a call of a custom tool, its input can be read back from the arguments that it
/// goes over the wire with.
pub open spec fn reads_back(item: ItemView) -> bool {
    item matches ItemView::CustomToolCall { input, .. } ==> reads_as(
        written(custom_arguments(input)),
        custom_arguments(input),
    )
}

/// So it is with each of these items.
pub open spec fn all_items_read_back(items: Seq<ItemView>) -> bool {
    forall|i: int| 0 <= i < items.len() ==> reads_back(#[trigger] items[i])
}

/// The message that an item becomes on the chat wire, if it goes there at all.
pub open spec fn item_message(item: ItemView) -> Option<JsonView> {
    match item {
        ItemView::Message { role, content, .. } => Some(text_message(role, content_text(content))),
        ItemView::FunctionCall { call_id, namespace, name, arguments, .. } => Some(
            call_message(call_id, encoded(namespace, name), arguments),
        ),
        ItemView::FunctionCallOutput { call_id, output, .. } => Some(
            output_message(call_id, output),
        ),
        ItemView::CustomToolCall { call_id, name, input, .. } => Some(
            call_message(call_id, name, written(custom_arguments(input))),
        ),
        ItemView::CustomToolCallOutput { call_id, output, .. } => Some(
            output_message(call_id, output),
        ),
        _ => None,
    }
}

/// The messages that a list of items becomes, in their order.
pub open spec fn item_messages(items: Seq<ItemView>) -> Seq<JsonView>
    decreases items.len(),
{
    if items.len() == 0 {
        Seq::empty()
    } else {
        let before = item_messages(items.drop_last());
        match item_message(items.last()) {
            Some(message) => before.push(message),
            None => before,
        }
    }
}

/// The messages of a request: the instructions, if there are any, and then what the items become.
pub open spec fn messages(instructions: Seq<char>, input: Seq<ItemView>) -> Seq<JsonView> {
    if instructions.len() > 0 {
        seq![text_message("system"@, instructions)] + item_messages(input)
    } else {
        item_messages(input)
    }
}

/// The body of a chat request whose tools are translated.
pub open spec fn chat_body(req: RequestView, tools: Seq<JsonView>) -> Map<Seq<char>, JsonView> {
    let base = map![
        "model"@ => JsonView::String(req.model),
        "stream"@ => JsonView::Bool(true),
        "messages"@ => JsonView::Array(messages(req.instructions, req.input)),
    ];
    let equipped = if tools.len() > 0 {
        base.insert("tools"@, JsonView::Array(tools))
    } else {
        base
    };
    let steered = if req.tool_choice.len() > 0 {
        equipped.insert("tool_choice"@, JsonView::String(req.tool_choice))
    } else {
        equipped
    };
    match req.service_tier {
        Some(tier) => steered.insert("service_tier"@, JsonView::String(tier)),
        None => steered,
    }
}

/// The tool definitions that a request carries, given what was read from their text; a text that
/// is not JSON, or no array, is a fault.
pub open spec fn tool_list(parsed: Option<Result<JsonView, Seq<char>>>) -> Result<
    Seq<JsonView>,
    ErrorView,
> {
    match parsed {
        None => Ok(Seq::empty()),
        Some(Ok(JsonView::Array(items))) => Ok(items),
        Some(Ok(other)) => Err(
            ErrorView::InvalidRequest {
                message: "expected tools to serialize to a JSON array, got "@ + written(other),
            },
        ),
        Some(Err(fault)) => Err(
            ErrorView::InvalidRequest { message: "failed to serialize tools: "@ + fault },
        ),
    }
}

/// What is read from the text of a request's tool definitions.
pub open spec fn parsed_tools(req: RequestView) -> Option<Result<JsonView, Seq<char>>> {
    match req.tools {
        Some(raw) => Some(read(raw)),
        None => None,
    }
}

/// What a request comes to, given what was read from the text of its tool definitions, and the
/// map after it.
pub open spec fn chat_request(
    req: RequestView,
    parsed: Option<Result<JsonView, Seq<char>>>,
    map: Map<Seq<char>, KindView>,
) -> (Result<JsonView, ErrorView>, Map<Seq<char>, KindView>) {
    if req.format is Some {
        let message = "structured output (text.format) is not supported for wire_api = chat"@;
        (Err(ErrorView::InvalidRequest { message }), map)
    } else {
        match tool_list(parsed) {
            Err(fault) => (Err(fault), map),
            Ok(tools) => {
                let (chat_tools, after) = translated(tools, map);
                match chat_tools {
                    Err(fault) => (Err(fault), after),
                    Ok(chat_tools) => (Ok(JsonView::Object(chat_body(req, chat_tools))), after),
                }
            },
        }
    }
}

/// A JSON string.
fn string(text: &str) -> (r: Json)
    ensures
        r.value() == JsonView::String(text@),
{
    Json::String(text.to_owned())
}

/// Writes a message of a role.
fn write_text_message(role: &str, content: &str) -> (r: Json)
    ensures
        r.value() == text_message(role@, content@),
{
    let mut message = JsonMap::new();
    message.insert("role".to_owned(), string(role));
    message.insert("content".to_owned(), string(content));
    Json::Object(message)
}

/// Writes the assistant's message that makes one call.
fn write_call_message(call_id: &str, name: &str, arguments: &str) -> (r: Json)
    ensures
        r.value() == call_message(call_id@, name@, arguments@),
{
    let mut function = JsonMap::new();
    function.insert("name".to_owned(), string(name));
    function.insert("arguments".to_owned(), string(arguments));
    let mut call = JsonMap::new();
    call.insert("id".to_owned(), string(call_id));
    call.insert("type".to_owned(), string("function"));
    call.insert("function".to_owned(), Json::Object(function));
    let mut calls: Vec<Json> = Vec::new();
    calls.push(Json::Object(call));
    assert(calls.deep_view() =~= seq![JsonView::Object(call.members())]);
    let mut message = JsonMap::new();
    message.insert("role".to_owned(), string("assistant"));
    message.insert("tool_calls".to_owned(), Json::array(calls));
    Json::Object(message)
}

/// Writes the message that answers a call.
fn write_output_message(call_id: &Option<String>, output: &FunctionCallOutputPayload) -> (r: Json)
    ensures
        r.value() == output_message(call_id.deep_view(), output.deep_view()),
{
    let id = match call_id {
        Some(id) => string(id.as_str()),
        None => Json::Null,
    };
    let content = match output.body.to_text() {
        Some(text) => text,
        None => String::new(),
    };
    let mut message = JsonMap::new();
    message.insert("role".to_owned(), string("tool"));
    message.insert("tool_call_id".to_owned(), id);
    message.insert("content".to_owned(), Json::String(content));
    Json::Object(message)
}

/// Wraps the input of a custom tool as `{"input": "..."}`, a text from which the input can be read
/// back.
pub fn wrap_custom_input(input: &str) -> (r: String)
    ensures
        r@ == written(custom_arguments(input@)),
        reads_as(r@, custom_arguments(input@)),
{
    let mut arguments = JsonMap::new();
    arguments.insert("input".to_owned(), string(input));
    Json::Object(arguments).to_text()
}

/// Writes the message that an item becomes on the chat wire, if it goes there at all.
pub fn translate_item(item: &ResponseItem) -> (r: Option<Json>)
    ensures
        r.deep_view() == item_message(item.deep_view()),
        reads_back(item.deep_view()),
{
    match item {
        ResponseItem::Message { role, content, .. } => {
            let parts = content.as_slice();
            assert(parts.deep_view() =~= content.deep_view());
            let text = join_content_text(parts);
            Some(write_text_message(role.as_str(), text.as_str()))
        },
        ResponseItem::FunctionCall { call_id, namespace, name, arguments, .. } => {
            let ns = match namespace {
                Some(ns) => Some(ns.as_str()),
                None => None,
            };
            let key = encode_name(ns, name.as_str());
            Some(write_call_message(call_id.as_str(), key.as_str(), arguments.as_str()))
        },
        ResponseItem::FunctionCallOutput { call_id, output, .. } => Some(
            write_output_message(call_id, output),
        ),
        ResponseItem::CustomToolCall { call_id, name, input, .. } => {
            let arguments = wrap_custom_input(input.as_str());
            Some(write_call_message(call_id.as_str(), name.as_str(), arguments.as_str()))
        },
        ResponseItem::CustomToolCallOutput { call_id, output, .. } => Some(
            write_output_message(call_id, output),
        ),
        // The model's reasoning must not leak its encrypted content, and the others have no
        // counterpart.
        _ => None,
    }
}

/// Writes the messages of a request.
fn build_messages(instructions: &str, input: &Vec<ResponseItem>) -> (r: Vec<Json>)
    ensures
        r.deep_view() == messages(instructions@, input.deep_view()),
        all_items_read_back(input.deep_view()),
{
    let mut out: Vec<Json> = Vec::new();
    if !instructions.is_empty() {
        out.push(write_text_message("system", instructions));
    }
    let ghost head = out.deep_view();
    let ghost all = input.deep_view();
    let mut i: usize = 0;
    assert(all.take(0) =~= Seq::<ItemView>::empty());
    assert(head =~= head + item_messages(all.take(0)));
    while i < input.len()
        invariant
            i <= input@.len(),
            all == input.deep_view(),
            out.deep_view() == head + item_messages(all.take(i as int)),
            forall|k: int| 0 <= k < i ==> reads_back(#[trigger] all[k]),
        decreases input@.len() - i,
    {
        assert(all.take(i + 1).drop_last() =~= all.take(i as int));
        assert(all.take(i + 1).last() == input@[i as int].deep_view());
        let ghost before = out.deep_view();
        if let Some(message) = translate_item(&input[i]) {
            out.push(message);
            assert(out.deep_view() =~= before.push(message.deep_view()));
        }
        assert(out.deep_view() =~= head + item_messages(all.take(i + 1)));
        i += 1;
    }
    assert(all.take(i as int) =~= all);
    assert(out.deep_view() =~= messages(instructions@, all));
    out
}

/// What a text was read as.
pub open spec fn parse_outcome(parsed: Result<Json, String>) -> Result<JsonView, Seq<char>> {
    match parsed {
        Ok(value) => Ok(value.value()),
        Err(fault) => Err(fault@),
    }
}

/// The same, of a text that may be missing.
pub open spec fn parse_outcomes(parsed: Option<Result<Json, String>>) -> Option<
    Result<JsonView, Seq<char>>,
> {
    match parsed {
        Some(parsed) => Some(parse_outcome(parsed)),
        None => None,
    }
}

/// The refusal of a request.
fn refused(message: String) -> (r: ApiError)
    ensures
        r.deep_view() == (ErrorView::InvalidRequest { message: message@ }),
{
    ApiError::InvalidRequest { message }
}

/// Takes the tool definitions out of what was read from their text.
fn list_tools(parsed: Option<Result<Json, String>>) -> (r: Result<Vec<Json>, ApiError>)
    ensures
        outcome(r) == tool_list(parse_outcomes(parsed)),
{
    match parsed {
        None => {
            let none: Vec<Json> = Vec::new();
            assert(none.deep_view() =~= Seq::<JsonView>::empty());
            Ok(none)
        },
        Some(Ok(Json::Array(items))) => {
            assert(Json::Array(items).value()->Array_0 =~= items.deep_view());
            Ok(items)
        },
        Some(Ok(other)) => {
            let text = other.to_text();
            Err(
                refused(join("expected tools to serialize to a JSON array, got ", text.as_str())),
            )
        },
        Some(Err(fault)) => Err(refused(join("failed to serialize tools: ", fault.as_str()))),
    }
}

/// Build a chat JSON request body from a Responses request, given what was read from the text of
/// its tool definitions.
pub fn build_chat_request_with(
    req: &ResponsesApiRequest,
    parsed: Option<Result<Json, String>>,
    tool_map: &mut ToolReverseMap,
) -> (r: Result<Json, ApiError>)
    ensures
        outcome(r) == chat_request(req.deep_view(), parse_outcomes(parsed), old(tool_map)@).0,
        final(tool_map)@ == chat_request(
            req.deep_view(),
            parse_outcomes(parsed),
            old(tool_map)@,
        ).1,
        r is Ok ==> all_items_read_back(req.deep_view().input),
{
    // Structured output is not supported over the chat wire format.
    if let Some(text) = &req.text {
        if text.format.is_some() {
            return Err(
                refused(
                    "structured output (text.format) is not supported for wire_api = chat".to_owned(),
                ),
            );
        }
    }
    let tools = match list_tools(parsed) {
        Ok(tools) => tools,
        Err(fault) => return Err(fault),
    };
    let definitions = tools.as_slice();
    assert(definitions.deep_view() =~= tools.deep_view());
    let chat_tools = match translate_tools(definitions, tool_map) {
        Ok(chat_tools) => chat_tools,
        Err(fault) => return Err(fault),
    };
    let messages = build_messages(req.instructions.as_str(), &req.input);
    let mut body = JsonMap::new();
    body.insert("model".to_owned(), Json::String(req.model.clone()));
    body.insert("stream".to_owned(), Json::Bool(true));
    body.insert("messages".to_owned(), Json::array(messages));
    if chat_tools.len() > 0 {
        body.insert("tools".to_owned(), Json::array(chat_tools));
    }
    if !req.tool_choice.as_str().is_empty() {
        body.insert("tool_choice".to_owned(), Json::String(req.tool_choice.clone()));
    }
    if let Some(tier) = &req.service_tier {
        body.insert("service_tier".to_owned(), Json::String(tier.clone()));
    }
    Ok(Json::Object(body))
}

/// Build a chat JSON request body from a Responses request.
///
/// # Errors
///
/// Returns [`ApiError::InvalidRequest`] when:
/// - `text.format` (structured output) is requested, which is not supported;
/// - the tool definitions are no JSON array;
/// - a tool definition is malformed or contains a name collision.
pub fn build_chat_request(
    req: &ResponsesApiRequest,
    tool_map: &mut ToolReverseMap,
) -> (r: Result<Json, ApiError>)
    ensures
        outcome(r) == chat_request(
            req.deep_view(),
            parsed_tools(req.deep_view()),
            old(tool_map)@,
        ).0,
        final(tool_map)@ == chat_request(
            req.deep_view(),
            parsed_tools(req.deep_view()),
            old(tool_map)@,
        ).1,
        r is Ok ==> all_items_read_back(req.deep_view().input),
{
    let parsed = match &req.tools {
        Some(tools) => Some(Json::parse(tools.raw.as_str())),
        None => None,
    };
    build_chat_request_with(req, parsed, tool_map)
}

} // verus!
