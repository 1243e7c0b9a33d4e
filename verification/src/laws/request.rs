//! What a chat request holds of the request that it is built from.

use vstd::prelude::*;

use crate::error::ErrorView;
use crate::json::{read, written, JsonView};
use crate::laws::names::unambiguous;
use crate::laws::tools::{law_calls_lead_back_to_custom_tools, law_calls_lead_back_to_functions};
use crate::protocol::ItemView;
use crate::request::{
    call_message, chat_body, chat_request, custom_arguments, item_message, item_messages, messages,
    text_message, tool_list, RequestView,
};
use crate::response::{call_item, custom_input};
use crate::tool_map::{encoded, function_namespace, translated, KindView};
use crate::turn::CallView;

verus! {

/// What was read from the text of a request's tool definitions.
pub type Parsed = Option<Result<JsonView, Seq<char>>>;

/// A request for a structured answer is refused, whatever else it asks for, and registers nothing.
pub proof fn law_structured_output_is_refused(
    req: RequestView,
    parsed: Parsed,
    map: Map<Seq<char>, KindView>,
)
    requires
        req.format is Some,
    ensures
        chat_request(req, parsed, map).0 == Err::<JsonView, ErrorView>(
            ErrorView::InvalidRequest {
                message: "structured output (text.format) is not supported for wire_api = chat"@,
            },
        ),
        chat_request(req, parsed, map).1 == map,
{
}

/// Every other request is built, exactly if its tools are a list that can be translated.
pub proof fn law_other_requests_are_built(
    req: RequestView,
    parsed: Parsed,
    map: Map<Seq<char>, KindView>,
)
    requires
        req.format is None,
    ensures
        chat_request(req, parsed, map).0 is Ok <==> (tool_list(parsed) matches Ok(tools)
            && translated(tools, map).0 is Ok),
        tool_list(parsed) is Err ==> chat_request(req, parsed, map).1 == map,
        tool_list(parsed) matches Ok(tools) ==> chat_request(req, parsed, map).1 == translated(
            tools,
            map,
        ).1,
{
}

/// The names of the members that a chat request can have.
pub open spec fn body_names() -> Set<Seq<char>> {
    set!["model"@, "stream"@, "messages"@, "tools"@, "tool_choice"@, "service_tier"@]
}

/// They are all different.
proof fn lemma_body_names()
    ensures
        "model"@ != "stream"@,
        "model"@ != "messages"@,
        "model"@ != "tools"@,
        "model"@ != "tool_choice"@,
        "model"@ != "service_tier"@,
        "stream"@ != "messages"@,
        "stream"@ != "tools"@,
        "stream"@ != "tool_choice"@,
        "stream"@ != "service_tier"@,
        "messages"@ != "tools"@,
        "messages"@ != "tool_choice"@,
        "messages"@ != "service_tier"@,
        "tools"@ != "tool_choice"@,
        "tools"@ != "service_tier"@,
        "tool_choice"@ != "service_tier"@,
        "input"@ != "model"@,
        "input"@ != "stream"@,
        "input"@ != "messages"@,
        "input"@ != "tools"@,
        "input"@ != "tool_choice"@,
        "input"@ != "service_tier"@,
{
    reveal_strlit("model");
    reveal_strlit("stream");
    reveal_strlit("messages");
    reveal_strlit("tools");
    reveal_strlit("tool_choice");
    reveal_strlit("service_tier");
    reveal_strlit("input");
    assert("model"@[0] == 'm' && "tools"@[0] == 't' && "input"@[0] == 'i');
    assert("model"@.len() == 5 && "tools"@.len() == 5 && "input"@.len() == 5);
    assert("stream"@.len() == 6 && "messages"@.len() == 8 && "tool_choice"@.len() == 11
        && "service_tier"@.len() == 12);
}

/// A chat request asks for a stream, names the model, and carries the messages; it carries tools,
/// a choice of tools and a service tier exactly if there are any; and it has no other member.
pub proof fn law_members_of_the_body(req: RequestView, tools: Seq<JsonView>)
    ensures
        ({
            let body = chat_body(req, tools);
            &&& body.contains_pair("model"@, JsonView::String(req.model))
            &&& body.contains_pair("stream"@, JsonView::Bool(true))
            &&& body.contains_pair(
                "messages"@,
                JsonView::Array(messages(req.instructions, req.input)),
            )
            &&& body.dom().contains("tools"@) <==> tools.len() > 0
            &&& body.dom().contains("tools"@) ==> body["tools"@] == JsonView::Array(tools)
            &&& body.dom().contains("tool_choice"@) <==> req.tool_choice.len() > 0
            &&& body.dom().contains("tool_choice"@) ==> body["tool_choice"@] == JsonView::String(
                req.tool_choice,
            )
            &&& body.dom().contains("service_tier"@) <==> req.service_tier is Some
            &&& req.service_tier matches Some(tier) ==> body["service_tier"@] == JsonView::String(
                tier,
            )
            &&& body.dom().subset_of(body_names())
            &&& !body.dom().contains("input"@)
        }),
{
    lemma_body_names();
}

/// The items go into the messages in their order.
pub proof fn law_items_keep_their_order(first: Seq<ItemView>, second: Seq<ItemView>)
    ensures
        item_messages(first + second) == item_messages(first) + item_messages(second),
    decreases second.len(),
{
    if second.len() == 0 {
        assert(first + second =~= first);
    } else {
        law_items_keep_their_order(first, second.drop_last());
        assert((first + second).drop_last() =~= first + second.drop_last());
    }
}

/// Whether an item goes over the wire.
pub open spec fn speaks() -> spec_fn(ItemView) -> bool {
    |item: ItemView| item_message(item) is Some
}

/// An item goes over the wire exactly if it is a message, a call of a function or custom tool, or
/// the output of one.
pub proof fn law_what_goes_over_the_wire(item: ItemView)
    ensures
        item_message(item) is Some <==> item is Message || item is FunctionCall
            || item is FunctionCallOutput || item is CustomToolCall
            || item is CustomToolCallOutput,
{
}

/// The items that do not go over the wire leave no trace there: the request is the same without
/// them. So nothing of the model's reasoning gets out, its encrypted content least of all.
pub proof fn law_silent_items_leave_no_trace(
    req: RequestView,
    parsed: Parsed,
    map: Map<Seq<char>, KindView>,
)
    ensures
        chat_request(req, parsed, map) == chat_request(
            RequestView { input: req.input.filter(speaks()), ..req },
            parsed,
            map,
        ),
{
    lemma_silent_items(req.input);
}

/// The items that do not go over the wire become no messages.
proof fn lemma_silent_items(items: Seq<ItemView>)
    ensures
        item_messages(items) == item_messages(items.filter(speaks())),
    decreases items.len(),
{
    reveal(Seq::filter);
    if items.len() > 0 {
        let before = items.drop_last().filter(speaks());
        lemma_silent_items(items.drop_last());
        if speaks()(items.last()) {
            assert(items.filter(speaks()) == before.push(items.last()));
            assert(before.push(items.last()).drop_last() =~= before);
        }
    }
}

/// The instructions come before everything else, and every item that goes over the wire is among
/// the messages.
pub proof fn law_every_item_is_sent(instructions: Seq<char>, input: Seq<ItemView>, at: int)
    requires
        0 <= at < input.len(),
    ensures
        item_message(input[at]) matches Some(message) ==> messages(instructions, input).contains(
            message,
        ),
        instructions.len() > 0 ==> messages(instructions, input).first() == text_message(
            "system"@,
            instructions,
        ),
{
    let sent = messages(instructions, input);
    if let Some(message) = item_message(input[at]) {
        lemma_item_is_sent(input, at, message);
        let i = choose|i: int| 0 <= i < item_messages(input).len() && item_messages(input)[i] == message;
        if instructions.len() > 0 {
            assert(sent[i + 1] == message);
        } else {
            assert(sent[i] == message);
        }
    }
}

/// The message of an item is among those of all.
proof fn lemma_item_is_sent(items: Seq<ItemView>, at: int, message: JsonView)
    requires
        0 <= at < items.len(),
        item_message(items[at]) == Some(message),
    ensures
        item_messages(items).contains(message),
    decreases items.len(),
{
    let all = item_messages(items);
    let before = item_messages(items.drop_last());
    if at == items.len() - 1 {
        assert(all[before.len() as int] == message);
    } else {
        lemma_item_is_sent(items.drop_last(), at, message);
        let i = choose|i: int| 0 <= i < before.len() && before[i] == message;
        assert(all[i] == message);
    }
}

/// When a call of a function tool comes back in the next request as part of the history, it is on
/// the wire what it was.
pub proof fn law_history_repeats_function_calls(
    tools: Seq<JsonView>,
    map: Map<Seq<char>, KindView>,
    at: int,
    name: Seq<char>,
    call: CallView,
    item_id: Seq<char>,
)
    requires
        translated(tools, map).0 is Ok,
        0 <= at < tools.len(),
        tools[at].text_member("type"@) == Some("function"@),
        tools[at].text_member("name"@) == Some(name),
        call.name == encoded(function_namespace(tools[at]), name),
        unambiguous(function_namespace(tools[at]), name),
    ensures
        item_message(call_item(translated(tools, map).1, call, item_id)) == Some(
            call_message(call.id, call.name, call.arguments),
        ),
{
    law_calls_lead_back_to_functions(tools, map, at, name, call, item_id);
}

/// When a call of a custom tool comes back in the next request as part of the history, it is on the
/// wire the call of that tool with the input that was read from it.
pub proof fn law_history_repeats_custom_calls(
    tools: Seq<JsonView>,
    map: Map<Seq<char>, KindView>,
    at: int,
    call: CallView,
    item_id: Seq<char>,
)
    requires
        translated(tools, map).0 is Ok,
        0 <= at < tools.len(),
        tools[at].text_member("type"@) == Some("custom"@),
        tools[at].text_member("name"@) == Some(call.name),
    ensures
        item_message(call_item(translated(tools, map).1, call, item_id)) == Some(
            call_message(
                call.id,
                call.name,
                written(custom_arguments(custom_input(read(call.arguments), call.arguments))),
            ),
        ),
{
    law_calls_lead_back_to_custom_tools(tools, map, at, call, item_id);
}

} // verus!
