//! What a conversation is on the chat wire, message by message and member by member.

use vstd::prelude::*;

use crate::error::ErrorView;
use crate::json::{written, JsonView};
use crate::laws::definitions::{holds, holds_only};
use crate::laws::request::Parsed;
use crate::protocol::{ContentView, ItemView, OutputBodyView, OutputView};
use crate::request::{
    call_message, chat_request, content_text, item_message, item_messages, messages, tool_list, RequestView,
};
use crate::tool_map::{translated, KindView};

verus! {

/// The text of the parts of a message, one after the other; an image or audio adds nothing.
pub open spec fn spoken_text(content: Seq<ContentView>) -> Seq<char>
    decreases content.len(),
{
    if content.len() == 0 {
        Seq::empty()
    } else {
        spoken_text(content.drop_last()) + match content.last() {
            ContentView::InputText { text } => text,
            ContentView::OutputText { text } => text,
            ContentView::InputImage { .. } => Seq::empty(),
            ContentView::InputAudio { .. } => Seq::empty(),
        }
    }
}

/// The name that a tool of a namespace goes by; an empty namespace is none.
pub open spec fn name_on_wire(namespace: Option<Seq<char>>, name: Seq<char>) -> Seq<char> {
    match namespace {
        Some(ns) => if ns.len() > 0 {
            ns + "__NS__"@ + name
        } else {
            name
        },
        None => name,
    }
}

/// What a tool gave back, as text; nothing where it is no text.
pub open spec fn output_text(output: OutputView) -> Seq<char> {
    match output.body {
        OutputBodyView::Text(text) => text,
        OutputBodyView::ContentItems { text: Some(text) } => text,
        OutputBodyView::ContentItems { text: None } => Seq::empty(),
    }
}

/// A message of this role that says this, and holds nothing else.
pub open spec fn says(message: JsonView, role: Seq<char>, text: Seq<char>) -> bool {
    &&& holds_only(message, set!["role"@, "content"@])
    &&& holds(message, "role"@, JsonView::String(role))
    &&& holds(message, "content"@, JsonView::String(text))
}

/// One call of a function, as it stands in a message.
pub open spec fn is_call_of(
    call: JsonView,
    call_id: Seq<char>,
    name: Seq<char>,
    arguments: Seq<char>,
) -> bool {
    &&& holds_only(call, set!["id"@, "type"@, "function"@])
    &&& holds(call, "id"@, JsonView::String(call_id))
    &&& holds(call, "type"@, JsonView::String("function"@))
    &&& exists|function: JsonView| #[trigger]
        holds(call, "function"@, function) && ({
            &&& holds_only(function, set!["name"@, "arguments"@])
            &&& holds(function, "name"@, JsonView::String(name))
            &&& holds(function, "arguments"@, JsonView::String(arguments))
        })
}

/// A message of the assistant that makes this one call, and holds nothing else.
pub open spec fn makes_call(
    message: JsonView,
    call_id: Seq<char>,
    name: Seq<char>,
    arguments: Seq<char>,
) -> bool {
    &&& holds_only(message, set!["role"@, "tool_calls"@])
    &&& holds(message, "role"@, JsonView::String("assistant"@))
    &&& exists|call: JsonView|
        holds(message, "tool_calls"@, JsonView::Array(seq![call])) && #[trigger] is_call_of(
            call,
            call_id,
            name,
            arguments,
        )
}

/// A message that answers a call with this text, and holds nothing else.
pub open spec fn answers_call(
    message: JsonView,
    call_id: Option<Seq<char>>,
    text: Seq<char>,
) -> bool {
    &&& holds_only(message, set!["role"@, "tool_call_id"@, "content"@])
    &&& holds(message, "role"@, JsonView::String("tool"@))
    &&& holds(
        message,
        "tool_call_id"@,
        match call_id {
            Some(id) => JsonView::String(id),
            None => JsonView::Null,
        },
    )
    &&& holds(message, "content"@, JsonView::String(text))
}

/// `message` is what `item` is on the wire: a message says its text in its own role; a call is made
/// under the name of its tool, that of a custom tool with its input as one argument; and what a tool
/// gave back answers the call.
pub open spec fn sent_as(item: ItemView, message: JsonView) -> bool {
    match item {
        ItemView::Message { role, content, .. } => says(message, role, spoken_text(content)),
        ItemView::FunctionCall { call_id, namespace, name, arguments, .. } => makes_call(
            message,
            call_id,
            name_on_wire(namespace, name),
            arguments,
        ),
        ItemView::FunctionCallOutput { call_id, output, .. } => answers_call(
            message,
            call_id,
            output_text(output),
        ),
        ItemView::CustomToolCall { call_id, name, input, .. } => makes_call(
            message,
            call_id,
            name,
            written(JsonView::Object(map!["input"@ => JsonView::String(input)])),
        ),
        ItemView::CustomToolCallOutput { call_id, output, .. } => answers_call(
            message,
            call_id,
            output_text(output),
        ),
        _ => false,
    }
}

/// The kinds of items that go over the wire.
pub open spec fn goes_over_the_wire() -> spec_fn(ItemView) -> bool {
    |item: ItemView|
        item is Message || item is FunctionCall || item is FunctionCallOutput
            || item is CustomToolCall || item is CustomToolCallOutput
}

/// `sent` is this conversation: the instructions as a system message, where there are any, and then
/// one message for each item that goes over the wire, in the order of the items.
pub open spec fn is_conversation(
    sent: Seq<JsonView>,
    instructions: Seq<char>,
    input: Seq<ItemView>,
) -> bool {
    let spoken = input.filter(goes_over_the_wire());
    let head = if instructions.len() > 0 {
        1int
    } else {
        0
    };
    &&& sent.len() == head + spoken.len()
    &&& instructions.len() > 0 ==> says(sent[0], "system"@, instructions)
    &&& forall|i: int|
        0 <= i < spoken.len() ==> sent_as(#[trigger] spoken[i], sent[head + i])
}

/// The names of the members of messages are all different.
proof fn lemma_names()
    ensures
        "role"@ != "content"@,
        "role"@ != "tool_calls"@,
        "role"@ != "tool_call_id"@,
        "content"@ != "tool_call_id"@,
        "id"@ != "type"@,
        "id"@ != "function"@,
        "type"@ != "function"@,
        "name"@ != "arguments"@,
{
    reveal_strlit("role");
    reveal_strlit("content");
    reveal_strlit("tool_calls");
    reveal_strlit("tool_call_id");
    reveal_strlit("id");
    reveal_strlit("type");
    reveal_strlit("function");
    reveal_strlit("name");
    reveal_strlit("arguments");
    assert("role"@.len() == 4 && "content"@.len() == 7 && "tool_calls"@.len() == 10);
    assert("tool_call_id"@.len() == 12 && "id"@.len() == 2 && "type"@.len() == 4);
    assert("function"@.len() == 8 && "name"@.len() == 4 && "arguments"@.len() == 9);
}

/// The text of parts, put together.
proof fn lemma_spoken_text(content: Seq<ContentView>)
    ensures
        content_text(content) == spoken_text(content),
    decreases content.len(),
{
    if content.len() > 0 {
        lemma_spoken_text(content.drop_last());
    }
}

/// A call as it stands in a message.
proof fn lemma_makes_call(
    message: JsonView,
    call_id: Seq<char>,
    name: Seq<char>,
    arguments: Seq<char>,
)
    requires
        message == call_message(call_id, name, arguments),
    ensures
        makes_call(message, call_id, name, arguments),
{
    lemma_names();
    let members = message->Object_0;
    assert(members.dom() =~= set!["role"@, "tool_calls"@]);
    let call = members["tool_calls"@]->Array_0[0];
    assert(members["tool_calls"@] == JsonView::Array(seq![call]));
    let function = call->Object_0["function"@];
    assert(call->Object_0.dom() =~= set!["id"@, "type"@, "function"@]);
    assert(function->Object_0.dom() =~= set!["name"@, "arguments"@]);
    assert(holds(call, "function"@, function));
    assert(is_call_of(call, call_id, name, arguments));
}

/// Each item that goes over the wire goes there as what it is, and the others do not go there at
/// all.
pub proof fn law_items_are_sent_as_what_they_are(item: ItemView)
    ensures
        match item_message(item) {
            Some(message) => sent_as(item, message) && goes_over_the_wire()(item),
            None => !goes_over_the_wire()(item),
        },
{
    lemma_names();
    if let Some(message) = item_message(item) {
        match item {
            ItemView::Message { role, content, .. } => {
                lemma_spoken_text(content);
                assert(message->Object_0.dom() =~= set!["role"@, "content"@]);
            },
            ItemView::FunctionCall { call_id, namespace, name, arguments, .. } => {
                lemma_makes_call(message, call_id, name_on_wire(namespace, name), arguments);
            },
            ItemView::CustomToolCall { call_id, name, input, .. } => {
                let object = JsonView::Object(map!["input"@ => JsonView::String(input)]);
                lemma_makes_call(message, call_id, name, written(object));
            },
            _ => {
                assert(message->Object_0.dom() =~= set!["role"@, "tool_call_id"@, "content"@]);
            },
        }
    }
}

/// The messages of items are those of the items that go over the wire, one for one.
proof fn lemma_item_messages(items: Seq<ItemView>)
    ensures
        ({
            let spoken = items.filter(goes_over_the_wire());
            &&& item_messages(items).len() == spoken.len()
            &&& forall|i: int|
                0 <= i < spoken.len() ==> sent_as(#[trigger] spoken[i], item_messages(items)[i])
        }),
    decreases items.len(),
{
    reveal(Seq::filter);
    if items.len() > 0 {
        let before = items.drop_last();
        let earlier = before.filter(goes_over_the_wire());
        let spoken = items.filter(goes_over_the_wire());
        lemma_item_messages(before);
        law_items_are_sent_as_what_they_are(items.last());
        assert forall|i: int| 0 <= i < spoken.len() implies sent_as(
            #[trigger] spoken[i],
            item_messages(items)[i],
        ) by {
            if i < earlier.len() {
                assert(spoken[i] == earlier[i]);
                assert(item_messages(items)[i] == item_messages(before)[i]);
            }
        }
    }
}

/// The messages of a request are its conversation.
proof fn lemma_messages(instructions: Seq<char>, input: Seq<ItemView>)
    ensures
        is_conversation(messages(instructions, input), instructions, input),
{
    lemma_names();
    lemma_item_messages(input);
    let sent = messages(instructions, input);
    let spoken = input.filter(goes_over_the_wire());
    if instructions.len() > 0 {
        assert(sent[0]->Object_0.dom() =~= set!["role"@, "content"@]);
        assert forall|i: int| 0 <= i < spoken.len() implies sent_as(
            #[trigger] spoken[i],
            sent[1 + i],
        ) by {
            assert(sent[1 + i] == item_messages(input)[i]);
        }
    }
}

/// The list of tools in what was read from the text of tool definitions; none where there is no
/// text.
pub open spec fn lists(parsed: Parsed, tools: Seq<JsonView>) -> bool {
    match parsed {
        None => tools.len() == 0,
        Some(Ok(value)) => value == JsonView::Array(tools),
        Some(Err(_)) => false,
    }
}

/// `body` holds the definitions of the tools that were listed, exactly if there are any.
pub open spec fn equips(
    body: JsonView,
    parsed: Parsed,
    map: Map<Seq<char>, KindView>,
    tools: Seq<JsonView>,
    defined: Seq<JsonView>,
) -> bool {
    &&& lists(parsed, tools)
    &&& translated(tools, map).0 == Ok::<Seq<JsonView>, ErrorView>(defined)
    &&& forall|member: JsonView| #[trigger]
        holds(body, "tools"@, member) <==> defined.len() > 0 && member == JsonView::Array(defined)
}

/// The names of the members of a body are all different.
proof fn lemma_body_names()
    ensures
        "model"@ != "stream"@,
        "model"@ != "messages"@,
        "model"@ != "tools"@,
        "model"@ != "tool_choice"@,
        "model"@ != "service_tier"@,
        "stream"@ != "messages"@,
        "stream"@ != "tools"@,
        "stream"@ != "tool_choice"@,
        "stream"@ != "service_tier"@,
        "messages"@ != "tools"@,
        "messages"@ != "tool_choice"@,
        "messages"@ != "service_tier"@,
        "tools"@ != "tool_choice"@,
        "tools"@ != "service_tier"@,
        "tool_choice"@ != "service_tier"@,
{
    reveal_strlit("model");
    reveal_strlit("stream");
    reveal_strlit("messages");
    reveal_strlit("tools");
    reveal_strlit("tool_choice");
    reveal_strlit("service_tier");
    assert("model"@[0] == 'm' && "tools"@[0] == 't');
    assert("stream"@.len() == 6 && "messages"@.len() == 8 && "tool_choice"@.len() == 11
        && "service_tier"@.len() == 12 && "model"@.len() == 5 && "tools"@.len() == 5);
}

/// What a request that is built holds, member by member: the model, that a stream is asked for, the
/// conversation, the definitions of its tools exactly if there are any, the choice of tools exactly
/// if it is not empty, the service tier exactly if there is one, and nothing else.
pub proof fn law_what_a_request_holds(
    req: RequestView,
    parsed: Parsed,
    map: Map<Seq<char>, KindView>,
    body: JsonView,
)
    requires
        chat_request(req, parsed, map).0 == Ok::<JsonView, ErrorView>(body),
    ensures
        holds(body, "model"@, JsonView::String(req.model)),
        holds(body, "stream"@, JsonView::Bool(true)),
        exists|sent: Seq<JsonView>| #[trigger]
            is_conversation(sent, req.instructions, req.input) && holds(
                body,
                "messages"@,
                JsonView::Array(sent),
            ),
        exists|tools: Seq<JsonView>, defined: Seq<JsonView>| #[trigger]
            equips(body, parsed, map, tools, defined) && chat_request(req, parsed, map).1
                == translated(tools, map).1,
        forall|member: JsonView| #[trigger]
            holds(body, "tool_choice"@, member) <==> req.tool_choice.len() > 0 && member
                == JsonView::String(req.tool_choice),
        forall|member: JsonView| #[trigger]
            holds(body, "service_tier"@, member) <==> (req.service_tier matches Some(tier)
                && member == JsonView::String(tier)),
        forall|name: Seq<char>, member: JsonView| #[trigger]
            holds(body, name, member) ==> set![
                "model"@,
                "stream"@,
                "messages"@,
                "tools"@,
                "tool_choice"@,
                "service_tier"@,
            ].contains(name),
        req.format is None,
{
    lemma_body_names();
    lemma_messages(req.instructions, req.input);
    let sent = messages(req.instructions, req.input);
    assert(is_conversation(sent, req.instructions, req.input));
    let tools = tool_list(parsed)->Ok_0;
    assert(lists(parsed, tools)) by {
        if parsed is None {
            assert(tools =~= Seq::<JsonView>::empty());
        }
    }
    let defined = translated(tools, map).0->Ok_0;
    assert(equips(body, parsed, map, tools, defined));
}

/// Why a request is refused: a structured answer is asked for; the text of its tools is not JSON, or
/// no array; or its tools cannot be translated. Only in the last case has anything been registered.
pub proof fn law_why_a_request_is_refused(
    req: RequestView,
    parsed: Parsed,
    map: Map<Seq<char>, KindView>,
)
    ensures
        req.format is Some ==> chat_request(req, parsed, map) == (
            Err::<JsonView, ErrorView>(
                ErrorView::InvalidRequest {
                    message:
                        "structured output (text.format) is not supported for wire_api = chat"@,
                },
            ),
            map,
        ),
        req.format is None ==> (parsed matches Some(Err(fault)) ==> chat_request(req, parsed, map)
            == (
            Err::<JsonView, ErrorView>(
                ErrorView::InvalidRequest { message: "failed to serialize tools: "@ + fault },
            ),
            map,
        )),
        req.format is None ==> (parsed matches Some(Ok(value)) ==> value is Array || chat_request(
            req,
            parsed,
            map,
        ) == (
            Err::<JsonView, ErrorView>(
                ErrorView::InvalidRequest {
                    message: "expected tools to serialize to a JSON array, got "@ + written(value),
                },
            ),
            map,
        )),
        forall|tools: Seq<JsonView>|
            req.format is None && #[trigger] lists(parsed, tools) ==> match translated(
                tools,
                map,
            ).0 {
                Ok(_) => chat_request(req, parsed, map).0 is Ok,
                Err(fault) => chat_request(req, parsed, map) == (
                    Err::<JsonView, ErrorView>(fault),
                    translated(tools, map).1,
                ),
            },
{
    assert forall|tools: Seq<JsonView>|
        req.format is None && #[trigger] lists(parsed, tools) implies match translated(
        tools,
        map,
    ).0 {
        Ok(_) => chat_request(req, parsed, map).0 is Ok,
        Err(fault) => chat_request(req, parsed, map) == (
            Err::<JsonView, ErrorView>(fault),
            translated(tools, map).1,
        ),
    } by {
        if parsed is None {
            assert(tools =~= Seq::<JsonView>::empty());
        }
    }
}

} // verus!
