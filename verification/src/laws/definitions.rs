//! What becomes of each tool definition, member by member.

use vstd::prelude::*;

use crate::error::ErrorView;
use crate::json::{written, JsonView};
use crate::tool_map::{input_schema, tool_step, translated, KindView, ToolStep};

verus! {

/// `value` is an object with this member.
pub open spec fn holds(value: JsonView, name: Seq<char>, member: JsonView) -> bool {
    value matches JsonView::Object(members) && members.contains_pair(name, member)
}

/// `value` is an object with exactly these members' names.
pub open spec fn holds_only(value: JsonView, names: Set<Seq<char>>) -> bool {
    value matches JsonView::Object(members) && members.dom() == names
}

/// What is read of the members of a value: a member is there exactly if the value is an object that
/// has it, and its text is there exactly if it is a string.
pub proof fn law_members_are_those_of_the_object(value: JsonView, name: Seq<char>)
    ensures
        forall|member: JsonView| #[trigger]
            holds(value, name, member) <==> value.member(name) == Some(member),
        forall|text: Seq<char>|
            #![trigger holds(value, name, JsonView::String(text))]
            holds(value, name, JsonView::String(text)) <==> value.text_member(name) == Some(text),
        forall|text: Seq<char>|
            value == JsonView::String(text) <==> #[trigger] value.text() == Some(text),
{
}

/// The names of the members that tool definitions have are all different.
proof fn lemma_names()
    ensures
        "type"@ != "name"@,
        "type"@ != "function"@,
        "name"@ != "function"@,
        "type"@ != "parameters"@,
        "type"@ != "description"@,
        "type"@ != "properties"@,
        "type"@ != "required"@,
        "name"@ != "description"@,
        "name"@ != "parameters"@,
        "description"@ != "parameters"@,
        "properties"@ != "required"@,
        "function"@ != "custom"@,
{
    reveal_strlit("type");
    reveal_strlit("name");
    reveal_strlit("function");
    reveal_strlit("custom");
    reveal_strlit("description");
    reveal_strlit("parameters");
    reveal_strlit("properties");
    reveal_strlit("required");
    assert("type"@[0] == 't' && "name"@[0] == 'n');
    assert("type"@.len() == 4 && "function"@.len() == 8 && "required"@.len() == 8);
    assert("custom"@.len() == 6);
    assert("description"@.len() == 11 && "parameters"@.len() == 10 && "properties"@.len() == 10);
}

/// A function tool goes over the wire by its name, behind its namespace and a separator where it has
/// one that is not empty, and is registered as a function of that namespace. It is defined there as
/// an object with the type `function` and a function that has this name, the tool's description
/// exactly if it has one, its parameters exactly if it has some, and nothing else.
pub proof fn law_function_tools_are_defined(tool: JsonView, name: Seq<char>)
    requires
        holds(tool, "type"@, JsonView::String("function"@)),
        holds(tool, "name"@, JsonView::String(name)),
    ensures
        tool_step(tool) matches ToolStep::Declared { name: key, kind, definition } && ({
            &&& kind matches KindView::Function { namespace } && {
                &&& forall|ns: Seq<char>|
                    #![trigger holds(tool, "namespace"@, JsonView::String(ns))]
                    namespace == Some(ns) <==> holds(tool, "namespace"@, JsonView::String(ns))
                        && ns.len() > 0
                &&& key == match namespace {
                    Some(ns) => ns + "__NS__"@ + name,
                    None => name,
                }
            }
            &&& holds_only(definition, set!["type"@, "function"@])
            &&& holds(definition, "type"@, JsonView::String("function"@))
            &&& exists|function: Map<Seq<char>, JsonView>| #[trigger]
                holds(definition, "function"@, JsonView::Object(function)) && ({
                    &&& function.contains_pair("name"@, JsonView::String(key))
                    &&& function.dom().subset_of(set!["name"@, "description"@, "parameters"@])
                    &&& forall|member: JsonView|
                        #![trigger holds(tool, "description"@, member)]
                        function.contains_pair("description"@, member) <==> holds(
                            tool,
                            "description"@,
                            member,
                        )
                    &&& forall|member: JsonView|
                        #![trigger holds(tool, "parameters"@, member)]
                        function.contains_pair("parameters"@, member) <==> holds(
                            tool,
                            "parameters"@,
                            member,
                        )
                })
        }),
{
    lemma_names();
    law_members_are_those_of_the_object(tool, "type"@);
    law_members_are_those_of_the_object(tool, "name"@);
    law_members_are_those_of_the_object(tool, "namespace"@);
    law_members_are_those_of_the_object(tool, "description"@);
    law_members_are_those_of_the_object(tool, "parameters"@);
    assert(tool.text_member("type"@) == Some("function"@));
    assert(tool.text_member("name"@) == Some(name));
    if let ToolStep::Declared { name: key, kind, definition } = tool_step(tool) {
        assert(definition->Object_0.dom() =~= set!["type"@, "function"@]);
        let function = definition->Object_0["function"@]->Object_0;
        assert(holds(definition, "function"@, JsonView::Object(function)));
        assert forall|ns: Seq<char>|
            #![trigger holds(tool, "namespace"@, JsonView::String(ns))]
            kind->namespace == Some(ns) <==> holds(tool, "namespace"@, JsonView::String(ns))
            && ns.len() > 0 by {
            assert(holds(tool, "namespace"@, JsonView::String(ns)) <==> tool.text_member(
                "namespace"@,
            ) == Some(ns));
        }
        assert forall|member: JsonView|
            #![trigger holds(tool, "description"@, member)]
            function.contains_pair("description"@, member) <==> holds(
            tool,
            "description"@,
            member,
        ) by {
            assert(holds(tool, "description"@, member) <==> tool.member("description"@) == Some(
                member,
            ));
        }
        assert forall|member: JsonView|
            #![trigger holds(tool, "parameters"@, member)]
            function.contains_pair("parameters"@, member) <==> holds(
            tool,
            "parameters"@,
            member,
        ) by {
            assert(holds(tool, "parameters"@, member) <==> tool.member("parameters"@) == Some(
                member,
            ));
        }
    }
}

/// The description of a tool, which is empty where it has none that is text.
pub open spec fn own_description(tool: JsonView, text: Seq<char>) -> bool {
    ||| holds(tool, "description"@, JsonView::String(text))
    ||| text.len() == 0 && forall|other: Seq<char>|
        !#[trigger] holds(tool, "description"@, JsonView::String(other))
}

/// The definition of a tool's format, as it stands in the tool.
pub open spec fn format_of(tool: JsonView, definition: JsonView) -> bool {
    exists|format: JsonView| #[trigger]
        holds(tool, "format"@, format) && holds(format, "definition"@, definition)
}

/// What the definition of a format is in a description: itself where it is text, and else the JSON
/// text of it.
pub open spec fn format_text(definition: JsonView) -> Seq<char> {
    match definition {
        JsonView::String(text) => text,
        other => written(other),
    }
}

/// A custom tool goes over the wire by its own name and is registered as a custom tool. It is defined
/// there as a function of that name, described by its own description and, where its format has a
/// definition, by that below, with one required parameter, the string `input`.
pub proof fn law_custom_tools_are_defined(tool: JsonView, name: Seq<char>)
    requires
        holds(tool, "type"@, JsonView::String("custom"@)),
        holds(tool, "name"@, JsonView::String(name)),
    ensures
        tool_step(tool) matches ToolStep::Declared { name: key, kind, definition } && ({
            &&& key == name
            &&& kind is Custom
            &&& holds_only(definition, set!["type"@, "function"@])
            &&& holds(definition, "type"@, JsonView::String("function"@))
            &&& exists|function: JsonView, description: Seq<char>, schema: JsonView|
                #![trigger holds(function, "description"@, JsonView::String(description)),
                    holds(function, "parameters"@, schema)]
                holds(definition, "function"@, function) && ({
                    &&& holds_only(function, set!["name"@, "description"@, "parameters"@])
                    &&& holds(function, "name"@, JsonView::String(name))
                    &&& holds(function, "description"@, JsonView::String(description))
                    &&& holds(function, "parameters"@, schema)
                    &&& is_input_schema(schema)
                    &&& exists|own: Seq<char>| #[trigger]
                        own_description(tool, own) && ({
                            &&& forall|format: JsonView| #[trigger]
                                format_of(tool, format) ==> description == own + "\n\n"@
                                    + format_text(format)
                            &&& (forall|format: JsonView| !#[trigger] format_of(tool, format))
                                ==> description == own
                        })
                })
        }),
{
    lemma_names();
    law_members_are_those_of_the_object(tool, "type"@);
    law_members_are_those_of_the_object(tool, "name"@);
    law_members_are_those_of_the_object(tool, "description"@);
    law_members_are_those_of_the_object(tool, "format"@);
    assert(tool.text_member("type"@) == Some("custom"@));
    assert(tool.text_member("name"@) == Some(name));
    if let ToolStep::Declared { name: key, kind, definition } = tool_step(tool) {
        assert(definition->Object_0.dom() =~= set!["type"@, "function"@]);
        let function = definition->Object_0["function"@];
        let description = function->Object_0["description"@]->String_0;
        let schema = function->Object_0["parameters"@];
        assert(holds(definition, "function"@, function));
        assert(function->Object_0.dom() =~= set!["name"@, "description"@, "parameters"@]);
        assert(holds(function, "description"@, JsonView::String(description)));
        assert(holds(function, "parameters"@, schema));
        lemma_input_schema(schema);
        let own = match tool.text_member("description"@) {
            Some(text) => text,
            None => Seq::empty(),
        };
        assert(own_description(tool, own)) by {
            if tool.text_member("description"@) is None {
                assert forall|other: Seq<char>| !#[trigger] holds(
                    tool,
                    "description"@,
                    JsonView::String(other),
                ) by {
                    assert(holds(tool, "description"@, JsonView::String(other)) <==> tool.text_member(
                        "description"@,
                    ) == Some(other));
                }
            } else {
                assert(holds(tool, "description"@, JsonView::String(own)) <==> tool.text_member(
                    "description"@,
                ) == Some(own));
            }
        }
        assert forall|format: JsonView| #[trigger] format_of(tool, format) implies description
            == own + "\n\n"@ + format_text(format) by {
            let around = choose|around: JsonView| #[trigger]
                holds(tool, "format"@, around) && holds(around, "definition"@, format);
            assert(holds(tool, "format"@, around) <==> tool.member("format"@) == Some(around));
            law_members_are_those_of_the_object(around, "definition"@);
            assert(holds(around, "definition"@, format) <==> around.member("definition"@) == Some(
                format,
            ));
        }
        if forall|format: JsonView| !#[trigger] format_of(tool, format) {
            if let Some(around) = tool.member("format"@) {
                assert(holds(tool, "format"@, around) <==> tool.member("format"@) == Some(around));
                law_members_are_those_of_the_object(around, "definition"@);
                if let Some(format) = around.member("definition"@) {
                    assert(holds(around, "definition"@, format) <==> around.member("definition"@)
                        == Some(format));
                    assert(format_of(tool, format));
                }
            }
        }
    }
}

/// A schema of objects with one required property, the string `input`.
pub open spec fn is_input_schema(schema: JsonView) -> bool {
    &&& holds_only(schema, set!["type"@, "properties"@, "required"@])
    &&& holds(schema, "type"@, JsonView::String("object"@))
    &&& holds(schema, "required"@, JsonView::Array(seq![JsonView::String("input"@)]))
    &&& exists|properties: JsonView, input: JsonView|
        #![trigger holds(schema, "properties"@, properties), holds(properties, "input"@, input)]
        {
            &&& holds(schema, "properties"@, properties)
            &&& holds_only(properties, set!["input"@])
            &&& holds(properties, "input"@, input)
            &&& holds_only(input, set!["type"@])
            &&& holds(input, "type"@, JsonView::String("string"@))
        }
}

/// The schema of custom tools is one.
proof fn lemma_input_schema(schema: JsonView)
    requires
        schema == input_schema(),
    ensures
        is_input_schema(schema),
{
    lemma_names();
    assert(schema->Object_0.dom() =~= set!["type"@, "properties"@, "required"@]);
    let properties = schema->Object_0["properties"@];
    let input = properties->Object_0["input"@];
    assert(properties->Object_0.dom() =~= set!["input"@]);
    assert(input->Object_0.dom() =~= set!["type"@]);
    assert(holds(schema, "properties"@, properties));
    assert(holds(properties, "input"@, input));
}

/// A value has no text under this name.
pub open spec fn no_text(value: JsonView, name: Seq<char>) -> bool {
    forall|text: Seq<char>| !#[trigger] holds(value, name, JsonView::String(text))
}

/// A function or custom tool without a name that is text is malformed, and each is told so in its
/// own words.
pub proof fn law_tools_without_names_are_malformed(tool: JsonView)
    requires
        no_text(tool, "name"@),
    ensures
        holds(tool, "type"@, JsonView::String("function"@)) ==> tool_step(tool) == ToolStep::Faulty(
            "function tool missing 'name'"@,
        ),
        holds(tool, "type"@, JsonView::String("custom"@)) ==> tool_step(tool) == ToolStep::Faulty(
            "custom tool missing 'name' field"@,
        ),
{
    lemma_names();
    law_members_are_those_of_the_object(tool, "type"@);
    law_members_are_those_of_the_object(tool, "name"@);
    if let Some(text) = tool.text_member("name"@) {
        assert(holds(tool, "name"@, JsonView::String(text)));
    }
    assert(holds(tool, "type"@, JsonView::String("function"@)) <==> tool.text_member("type"@)
        == Some("function"@));
    assert(holds(tool, "type"@, JsonView::String("custom"@)) <==> tool.text_member("type"@)
        == Some("custom"@));
}

/// A tool of any other type, or of none, is left out.
pub proof fn law_other_tools_are_left_out(tool: JsonView)
    requires
        !holds(tool, "type"@, JsonView::String("function"@)),
        !holds(tool, "type"@, JsonView::String("custom"@)),
    ensures
        tool_step(tool) is Skipped,
{
    law_members_are_those_of_the_object(tool, "type"@);
    assert(holds(tool, "type"@, JsonView::String("function"@)) <==> tool.text_member("type"@)
        == Some("function"@));
    assert(holds(tool, "type"@, JsonView::String("custom"@)) <==> tool.text_member("type"@)
        == Some("custom"@));
}

/// `at` is the first tool of a list that cannot be translated, and `message` says why: it is
/// malformed, or it goes by a name that is taken when its turn comes.
pub open spec fn first_fault(
    tools: Seq<JsonView>,
    map: Map<Seq<char>, KindView>,
    at: int,
    message: Seq<char>,
) -> bool {
    &&& 0 <= at < tools.len()
    &&& translated(tools.take(at), map).0 is Ok
    &&& match tool_step(tools[at]) {
        ToolStep::Faulty(fault) => message == fault,
        ToolStep::Declared { name, .. } => {
            &&& translated(tools.take(at), map).1.dom().contains(name)
            &&& message == "tool name collision: encoded name '"@ + name
                + "' is already registered"@
        },
        ToolStep::Skipped => false,
    }
}

/// Where a list of tools is refused, the first tool that cannot be translated says why, and the map
/// is left as the tools before it made it.
pub proof fn law_the_first_fault_decides(tools: Seq<JsonView>, map: Map<Seq<char>, KindView>)
    requires
        translated(tools, map).0 is Err,
    ensures
        exists|at: int, message: Seq<char>| #[trigger]
            first_fault(tools, map, at, message) && translated(tools, map).0 == Err::<
                Seq<JsonView>,
                ErrorView,
            >(ErrorView::InvalidRequest { message }) && translated(tools, map).1 == translated(
                tools.take(at),
                map,
            ).1,
    decreases tools.len(), 1nat,
{
    let none = Seq::<JsonView>::empty();
    if tools.len() > 0 {
        let rest = tools.drop_first();
        assert(tools.take(0) =~= none);
        match tool_step(tools.first()) {
            ToolStep::Faulty(message) => {
                assert(first_fault(tools, map, 0, message));
            },
            ToolStep::Declared { name, kind, definition } => if map.dom().contains(name) {
                let message = "tool name collision: encoded name '"@ + name
                    + "' is already registered"@;
                assert(first_fault(tools, map, 0, message));
            } else {
                lemma_fault_behind(tools, map, map.insert(name, kind));
            },
            ToolStep::Skipped => lemma_fault_behind(tools, map, map),
        }
    }
}

/// A fault behind the first tool.
proof fn lemma_fault_behind(
    tools: Seq<JsonView>,
    map: Map<Seq<char>, KindView>,
    grown: Map<Seq<char>, KindView>,
)
    requires
        tools.len() > 0,
        translated(tools, map).0 is Err,
        match tool_step(tools.first()) {
            ToolStep::Faulty(_) => false,
            ToolStep::Declared { name, kind, .. } => !map.dom().contains(name) && grown
                == map.insert(name, kind),
            ToolStep::Skipped => grown == map,
        },
    ensures
        exists|at: int, message: Seq<char>| #[trigger]
            first_fault(tools, map, at, message) && translated(tools, map).0 == Err::<
                Seq<JsonView>,
                ErrorView,
            >(ErrorView::InvalidRequest { message }) && translated(tools, map).1 == translated(
                tools.take(at),
                map,
            ).1,
    decreases tools.len(), 0nat,
{
    let rest = tools.drop_first();
    assert(translated(rest, grown).0 is Err);
    law_the_first_fault_decides(rest, grown);
    let (at, message) = choose|at: int, message: Seq<char>| #[trigger]
        first_fault(rest, grown, at, message) && translated(rest, grown).0 == Err::<
            Seq<JsonView>,
            ErrorView,
        >(ErrorView::InvalidRequest { message }) && translated(rest, grown).1 == translated(
            rest.take(at),
            grown,
        ).1;
    let upto = tools.take(at + 1);
    assert(upto.first() == tools.first());
    assert(upto.drop_first() =~= rest.take(at));
    assert(tools[at + 1] == rest[at]);
    assert(first_fault(tools, map, at + 1, message));
}

} // verus!
