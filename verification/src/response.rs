//! Translate a chat response stream into the events of the Responses model.

use vstd::prelude::*;
use vstd::string::*;

use crate::ids::{all_uuid_texts, fresh_id, fresh_ids, uuid_text};
use crate::json::{read, Json, JsonView};
use crate::protocol::{
    ContentItem, ContentView, EventView, ItemView, ResponseEvent, ResponseItem, ResponseItemId,
};
use crate::request::parse_outcome;
use crate::text::{decimal, decimal_text, join};
use crate::tool_map::{decode_name, decoded, KindView, ToolKind, ToolReverseMap};
use crate::turn::{message_item, CallView, ChatTurn, ToolCallBuilder, TurnView};
use crate::xml_calls::{all_read_back, calls, parse_xml_tool_calls, XmlCall};

verus! {

/// The input that a custom tool is called with, given what was read from its arguments: their
/// `input`, or all of them as they are where there is none.
pub open spec fn custom_input(
    parsed: Result<JsonView, Seq<char>>,
    arguments: Seq<char>,
) -> Seq<char> {
    match parsed {
        Ok(value) => match value.text_member("input"@) {
            Some(input) => input,
            None => arguments,
        },
        Err(_) => arguments,
    }
}

/// Takes the input out of what was read from the arguments of a custom tool.
pub fn extract_custom_input_from(parsed: &Result<Json, String>, arguments: &str) -> (r: String)
    ensures
        r@ == custom_input(parse_outcome(*parsed), arguments@),
{
    match parsed {
        Ok(value) => match value.get_str("input") {
            Some(input) => input.to_owned(),
            None => arguments.to_owned(),
        },
        Err(_) => arguments.to_owned(),
    }
}

/// Extract the `input` field value from a `{"input": "..."}` JSON string. Falls back to the raw
/// `arguments` string on parse failure.
pub fn extract_custom_input(arguments: &str) -> (r: String)
    ensures
        r@ == custom_input(read(arguments@), arguments@),
{
    let parsed = Json::parse(arguments);
    extract_custom_input_from(&parsed, arguments)
}

/// The namespace of a call: the registered one, or else the one in its name. An empty one is none.
pub open spec fn effective_namespace(
    registered: Option<Seq<char>>,
    in_name: Option<Seq<char>>,
) -> Option<Seq<char>> {
    let namespace = match registered {
        Some(ns) => Some(ns),
        None => in_name,
    };
    match namespace {
        Some(ns) => if ns.len() > 0 {
            Some(ns)
        } else {
            None
        },
        None => None,
    }
}

/// A call of a function tool.
pub open spec fn function_call_item(
    item_id: Seq<char>,
    name: Seq<char>,
    namespace: Option<Seq<char>>,
    call: CallView,
) -> ItemView {
    ItemView::FunctionCall {
        id: Some(item_id),
        name,
        namespace,
        arguments: call.arguments,
        encrypted_function_args: None,
        call_id: call.id,
        internal_chat_message_metadata_passthrough: None,
    }
}

/// The item that a tool call is, given what its name is registered as and what was read from its
/// arguments. A name that nobody registered is taken for that of a function.
pub open spec fn call_item_from(
    kind: Option<KindView>,
    parsed: Result<JsonView, Seq<char>>,
    call: CallView,
    item_id: Seq<char>,
) -> ItemView {
    match kind {
        Some(KindView::Function { namespace }) => function_call_item(
            item_id,
            decoded(call.name).1,
            effective_namespace(namespace, decoded(call.name).0),
            call,
        ),
        Some(KindView::Custom) => ItemView::CustomToolCall {
            id: Some(item_id),
            status: None,
            call_id: call.id,
            name: call.name,
            namespace: None,
            input: custom_input(parsed, call.arguments),
            internal_chat_message_metadata_passthrough: None,
        },
        None => function_call_item(item_id, call.name, None, call),
    }
}

/// What a name is registered as.
pub open spec fn registered(tools: Map<Seq<char>, KindView>, name: Seq<char>) -> Option<KindView> {
    if tools.dom().contains(name) {
        Some(tools[name])
    } else {
        None
    }
}

/// The item that a tool call is.
pub open spec fn call_item(
    tools: Map<Seq<char>, KindView>,
    call: CallView,
    item_id: Seq<char>,
) -> ItemView {
    call_item_from(registered(tools, call.name), read(call.arguments), call, item_id)
}

/// What is told of an item that comes all at once.
pub open spec fn added_and_done(item: ItemView) -> Seq<EventView> {
    seq![EventView::OutputItemAdded(item), EventView::OutputItemDone(item)]
}

/// What is told of a list of tool calls, in their order, each under its identifier.
pub open spec fn call_events(
    tools: Map<Seq<char>, KindView>,
    calls: Seq<CallView>,
    item_ids: Seq<Seq<char>>,
) -> Seq<EventView>
    decreases calls.len(),
{
    if calls.len() == 0 {
        Seq::empty()
    } else {
        call_events(tools, calls.drop_last(), item_ids) + added_and_done(
            call_item(tools, calls.last(), item_ids[calls.len() - 1]),
        )
    }
}

/// The identifier of the call at a position in the text.
pub open spec fn xml_call_id(at: nat) -> Seq<char> {
    "xmlcall_"@ + decimal(at)
}

/// The identifiers of calls in the text.
pub open spec fn xml_call_ids(found: Seq<XmlCall>) -> Seq<Seq<char>> {
    Seq::new(found.len(), |i: int| xml_call_id(i as nat))
}

/// The calls in the text as tool calls.
pub open spec fn xml_call_views(found: Seq<XmlCall>) -> Seq<CallView> {
    Seq::new(
        found.len(),
        |i: int|
            CallView {
                id: xml_call_id(i as nat),
                name: found[i].name,
                arguments: found[i].arguments(),
            },
    )
}

/// The calls that are written in the text; they count only where the model made no other.
pub open spec fn fallback_calls(turn: TurnView) -> Seq<XmlCall> {
    if turn.calls.len() == 0 && turn.text.len() > 0 {
        calls(turn.text)
    } else {
        Seq::empty()
    }
}

/// The content of the finished message.
pub open spec fn message_content(text: Seq<char>) -> Seq<ContentView> {
    if text.len() == 0 {
        Seq::empty()
    } else {
        seq![ContentView::OutputText { text }]
    }
}

/// What is told of the text at the end: of the calls in it, if it counts as calls, and else of the
/// finished message, if one was opened.
pub open spec fn text_events(turn: TurnView, tools: Map<Seq<char>, KindView>) -> Seq<EventView> {
    let found = fallback_calls(turn);
    if found.len() > 0 {
        call_events(tools, xml_call_views(found), xml_call_ids(found))
    } else {
        match turn.text_id {
            Some(id) => seq![
                EventView::OutputItemDone(message_item(id, message_content(turn.text))),
            ],
            None => Seq::empty(),
        }
    }
}

/// What is told last. The turn is over if the model called no tool.
pub open spec fn completed_event(turn: TurnView, new_id: Seq<char>) -> EventView {
    EventView::Completed {
        response_id: match turn.stream_id {
            Some(id) => id,
            None => new_id,
        },
        token_usage: None,
        usage_metadata: None,
        end_turn: Some(turn.calls.len() == 0 && fallback_calls(turn).len() == 0),
    }
}

/// What is told at the end of a response. The tool calls go by `item_ids`; the response goes by
/// `new_id` if it came without an identifier.
pub open spec fn final_events(
    turn: TurnView,
    tools: Map<Seq<char>, KindView>,
    item_ids: Seq<Seq<char>>,
    new_id: Seq<char>,
) -> Seq<EventView> {
    text_events(turn, tools) + call_events(tools, turn.calls, item_ids) + seq![
        completed_event(turn, new_id),
    ]
}

/// Makes the item of a tool call, given what its name is registered as and what was read from its
/// arguments.
pub fn make_call_item(
    kind: Option<&ToolKind>,
    parsed: &Result<Json, String>,
    call: ToolCallBuilder,
    item_id: String,
) -> (r: ResponseItem)
    ensures
        r.deep_view() == call_item_from(
            kind.deep_view(),
            parse_outcome(*parsed),
            call.deep_view(),
            item_id@,
        ),
{
    match kind {
        Some(ToolKind::Function { namespace }) => {
            let (in_name, name) = decode_name(call.name.as_str());
            let namespace = match namespace {
                Some(ns) => Some(ns.clone()),
                None => in_name,
            };
            let namespace = match namespace {
                Some(ns) => if ns.as_str().is_empty() {
                    None
                } else {
                    Some(ns)
                },
                None => None,
            };
            ResponseItem::FunctionCall {
                id: Some(ResponseItemId::from_server(item_id)),
                name,
                namespace,
                arguments: call.arguments,
                encrypted_function_args: None,
                call_id: call.id,
                internal_chat_message_metadata_passthrough: None,
            }
        },
        Some(ToolKind::Custom) => {
            let input = extract_custom_input_from(parsed, call.arguments.as_str());
            ResponseItem::CustomToolCall {
                id: Some(ResponseItemId::from_server(item_id)),
                status: None,
                call_id: call.id,
                name: call.name,
                namespace: None,
                input,
                internal_chat_message_metadata_passthrough: None,
            }
        },
        None => ResponseItem::FunctionCall {
            id: Some(ResponseItemId::from_server(item_id)),
            name: call.name,
            namespace: None,
            arguments: call.arguments,
            encrypted_function_args: None,
            call_id: call.id,
            internal_chat_message_metadata_passthrough: None,
        },
    }
}

/// Tells of tool calls, each under its identifier.
fn tell_calls(
    tools: &ToolReverseMap,
    calls: Vec<ToolCallBuilder>,
    item_ids: &Vec<String>,
    events: &mut Vec<ResponseEvent>,
)
    requires
        item_ids@.len() == calls@.len(),
    ensures
        final(events).deep_view() == old(events).deep_view() + call_events(
            tools@,
            calls.deep_view(),
            item_ids.deep_view(),
        ),
{
    let ghost all = calls.deep_view();
    let ghost ids = item_ids.deep_view();
    let ghost before = events.deep_view();
    let count: usize = item_ids.len();
    let mut i: usize = 0;
    assert(all.take(0) =~= Seq::<CallView>::empty());
    assert(before + call_events(tools@, all.take(0), ids) =~= before);
    for call in it: calls
        invariant
            it.seq() == calls@,
            all == calls.deep_view(),
            ids == item_ids.deep_view(),
            count == item_ids@.len() == calls@.len(),
            i == it.index(),
            events.deep_view() == before + call_events(tools@, all.take(i as int), ids),
    {
        let ghost told = events.deep_view();
        assert(all.take(i + 1).drop_last() =~= all.take(i as int));
        assert(all.take(i + 1).last() == call.deep_view());
        let kind = tools.get(call.name.as_str());
        let parsed = match kind {
            Some(ToolKind::Custom) => Json::parse(call.arguments.as_str()),
            _ => Err(String::new()),
        };
        let item = make_call_item(kind, &parsed, call, item_ids[i].clone());
        events.push(ResponseEvent::OutputItemAdded(item.clone()));
        events.push(ResponseEvent::OutputItemDone(item));
        assert(events.deep_view() =~= told + added_and_done(item.deep_view()));
        assert(events.deep_view() =~= before + call_events(tools@, all.take(i + 1), ids));
        i += 1;
    }
    assert(all.take(i as int) =~= all);
}

/// Writes the identifier of the call at a position in the text.
fn write_xml_call_id(at: usize) -> (r: String)
    ensures
        r@ == xml_call_id(at as nat),
{
    join("xmlcall_", decimal_text(at).as_str())
}

/// Takes the calls in a text as tool calls, with their identifiers.
fn take_xml_calls(text: &str) -> (r: (Vec<ToolCallBuilder>, Vec<String>))
    ensures
        r.0.deep_view() == xml_call_views(calls(text@)),
        r.1.deep_view() == xml_call_ids(calls(text@)),
        r.1@.len() == r.0@.len() == calls(text@).len(),
        all_read_back(calls(text@)),
{
    let found = parse_xml_tool_calls(text);
    let ghost written = calls(text@);
    let count: usize = found.len();
    let mut builders: Vec<ToolCallBuilder> = Vec::new();
    let mut ids: Vec<String> = Vec::new();
    let mut i: usize = 0;
    for call in it: found
        invariant
            it.seq() == found@,
            written == calls(text@),
            count == found@.len() == written.len(),
            forall|k: int| 0 <= k < found@.len() ==> (#[trigger] found@[k]).stands_for(written[k]),
            i == it.index(),
            builders@.len() == i,
            ids@.len() == i,
            forall|k: int|
                0 <= k < i ==> (#[trigger] builders@[k]).deep_view() == xml_call_views(written)[k],
            forall|k: int| 0 <= k < i ==> (#[trigger] ids@[k])@ == xml_call_ids(written)[k],
    {
        assert(found@[i as int].stands_for(written[i as int]));
        let builder = ToolCallBuilder {
            id: write_xml_call_id(i),
            name: call.name,
            arguments: call.arguments,
        };
        builders.push(builder);
        ids.push(write_xml_call_id(i));
        i += 1;
    }
    assert(builders.deep_view() =~= xml_call_views(written));
    assert(ids.deep_view() =~= xml_call_ids(written));
    (builders, ids)
}

/// Ends a response, and tells what is left to tell of it. The tool calls go by `item_ids`; the
/// response goes by `new_id` if it came without an identifier. The arguments of calls in the text are
/// read back as they were written there.
pub fn finish_with(
    turn: ChatTurn,
    tools: &ToolReverseMap,
    item_ids: Vec<String>,
    new_id: String,
) -> (r: Vec<ResponseEvent>)
    requires
        item_ids@.len() == turn@.calls.len(),
    ensures
        r.deep_view() == final_events(turn@, tools@, item_ids.deep_view(), new_id@),
        all_read_back(fallback_calls(turn@)),
{
    let ghost gathered = turn@;
    let parts = turn.into_parts();
    let mut events: Vec<ResponseEvent> = Vec::new();
    let called = parts.calls.len() > 0;

    // The model may have written its calls into the text. What is then told of them is all that is
    // told of the text at the end: its pieces have already been told as they came.
    let (xml_calls, xml_ids) = if !called && !parts.text.as_str().is_empty() {
        take_xml_calls(parts.text.as_str())
    } else {
        (Vec::new(), Vec::new())
    };
    let fell_back = xml_calls.len() > 0;
    assert(fell_back == (fallback_calls(gathered).len() > 0));
    assert(events.deep_view() =~= Seq::<EventView>::empty());
    if fell_back {
        tell_calls(tools, xml_calls, &xml_ids, &mut events);
    } else if let Some(id) = parts.text_id {
        let mut content: Vec<ContentItem> = Vec::new();
        if !parts.text.as_str().is_empty() {
            content.push(ContentItem::OutputText { text: parts.text });
        }
        assert(content.deep_view() =~= message_content(gathered.text));
        let item = ResponseItem::Message {
            id: Some(ResponseItemId::from_server(id)),
            role: "assistant".to_owned(),
            content,
            phase: None,
            internal_chat_message_metadata_passthrough: None,
        };
        events.push(ResponseEvent::OutputItemDone(item));
    }
    assert(events.deep_view() =~= text_events(gathered, tools@));
    tell_calls(tools, parts.calls, &item_ids, &mut events);
    let ghost told = events.deep_view();
    let response_id = match parts.stream_id {
        Some(id) => id,
        None => new_id,
    };
    events.push(
        ResponseEvent::Completed {
            response_id,
            token_usage: None,
            usage_metadata: None,
            end_turn: Some(!(called || fell_back)),
        },
    );
    assert(events.deep_view() =~= told.push(completed_event(gathered, new_id@)));
    assert(events.deep_view() =~= final_events(gathered, tools@, item_ids.deep_view(), new_id@));
    events
}

/// Ends a response, and tells what is left to tell of it. What came without an identifier goes by
/// a fresh one.
pub fn finish(turn: ChatTurn, tools: &ToolReverseMap) -> (r: Vec<ResponseEvent>)
    ensures
        exists|item_ids: Seq<Seq<char>>, new_id: Seq<char>|
            #![trigger final_events(turn@, tools@, item_ids, new_id)]
            item_ids.len() == turn@.calls.len() && all_uuid_texts(item_ids) && uuid_text(new_id)
                && r.deep_view() == final_events(turn@, tools@, item_ids, new_id),
        all_read_back(fallback_calls(turn@)),
{
    let item_ids = fresh_ids(turn.call_count());
    let new_id = fresh_id();
    finish_with(turn, tools, item_ids, new_id)
}

} // verus!
