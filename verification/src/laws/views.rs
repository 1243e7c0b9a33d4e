//! What the contracts see of a value is all that is in it.

use vstd::prelude::*;

use crate::chunk::{ChatChoice, ChatChunk, ChatDelta, FunctionDelta, ToolCallDelta};
use crate::error::{outcome, ApiError, ErrorView};
use crate::json::{Json, JsonView};
use crate::protocol::{
    ContentItem, ContentView, EventView, FunctionCallOutputBody, ItemView, OutputBodyView,
    ResponseEvent, ResponseItem,
};
use crate::request::ResponsesApiRequest;
use crate::stream::{all_told, told_by};
use crate::turn::ToolCallBuilder;

verus! {

/// A text that may be missing.
pub open spec fn text_if_any(text: Option<String>) -> Option<Seq<char>> {
    match text {
        Some(text) => Some(text@),
        None => None,
    }
}

/// A request is seen with its model, its instructions, all its items in their order, the text of its
/// tools, its choice of tools, its service tier and the schema of its answer.
pub proof fn law_requests_are_seen_whole(req: ResponsesApiRequest)
    ensures
        ({
            let seen = req.deep_view();
            &&& seen.model == req.model@
            &&& seen.instructions == req.instructions@
            &&& seen.input.len() == req.input@.len()
            &&& forall|i: int|
                0 <= i < req.input@.len() ==> #[trigger] seen.input[i] == req.input@[i].deep_view()
            &&& seen.tools == match req.tools {
                Some(tools) => Some(tools.raw@),
                None => None,
            }
            &&& seen.tool_choice == req.tool_choice@
            &&& seen.service_tier == text_if_any(req.service_tier)
            &&& seen.format is Some <==> (req.text matches Some(text) && text.format is Some)
        }),
{
}

/// The parts of a message are seen with their texts, each as what it is.
pub proof fn law_parts_are_seen_whole(part: ContentItem)
    ensures
        match (part, part.deep_view()) {
            (ContentItem::InputText { text }, ContentView::InputText { text: seen }) => seen
                == text@,
            (ContentItem::OutputText { text }, ContentView::OutputText { text: seen }) => seen
                == text@,
            (
                ContentItem::InputImage { image_url },
                ContentView::InputImage { image_url: seen },
            ) => seen == image_url@,
            (
                ContentItem::InputAudio { audio_url },
                ContentView::InputAudio { audio_url: seen },
            ) => seen == audio_url@,
            _ => false,
        },
{
}

/// Messages, calls and outputs are seen with all that goes over the wire of them.
pub proof fn law_items_are_seen_whole(item: ResponseItem)
    ensures
        match (item, item.deep_view()) {
            (
                ResponseItem::Message { role, content, .. },
                ItemView::Message { role: seen, content: parts, .. },
            ) => {
                &&& seen == role@
                &&& parts.len() == content@.len()
                &&& forall|i: int|
                    0 <= i < content@.len() ==> #[trigger] parts[i] == content@[i].deep_view()
            },
            (
                ResponseItem::FunctionCall { name, namespace, arguments, call_id, .. },
                ItemView::FunctionCall {
                    name: seen,
                    namespace: space,
                    arguments: passed,
                    call_id: id,
                    ..
                },
            ) => {
                &&& seen == name@
                &&& space == text_if_any(namespace)
                &&& passed == arguments@
                &&& id == call_id@
            },
            (
                ResponseItem::FunctionCallOutput { call_id, output, .. },
                ItemView::FunctionCallOutput { call_id: id, output: seen, .. },
            ) => id == text_if_any(call_id) && seen.body == output.body.deep_view(),
            (
                ResponseItem::CustomToolCall { call_id, name, input, .. },
                ItemView::CustomToolCall { call_id: id, name: seen, input: passed, .. },
            ) => id == call_id@ && seen == name@ && passed == input@,
            (
                ResponseItem::CustomToolCallOutput { call_id, output, .. },
                ItemView::CustomToolCallOutput { call_id: id, output: seen, .. },
            ) => id == text_if_any(call_id) && seen.body == output.body.deep_view(),
            (ResponseItem::Message { .. }, _) => false,
            (ResponseItem::FunctionCall { .. }, _) => false,
            (ResponseItem::FunctionCallOutput { .. }, _) => false,
            (ResponseItem::CustomToolCall { .. }, _) => false,
            (ResponseItem::CustomToolCallOutput { .. }, _) => false,
            (_, seen) => {
                &&& seen !is Message
                &&& seen !is FunctionCall
                &&& seen !is FunctionCallOutput
                &&& seen !is CustomToolCall
                &&& seen !is CustomToolCallOutput
            },
        },
{
}

/// What a tool gave back is seen with its text.
pub proof fn law_outputs_are_seen_whole(body: FunctionCallOutputBody)
    ensures
        match body {
            FunctionCallOutputBody::Text(text) => body.deep_view() == OutputBodyView::Text(text@),
            FunctionCallOutputBody::ContentItems { text } => body.deep_view() == (
            OutputBodyView::ContentItems { text: text_if_any(text) }),
        },
{
}

/// The pieces of a response are seen with all that came of them, in their order.
pub proof fn law_chunks_are_seen_whole(chunk: ChatChunk, choice: ChatChoice, delta: ChatDelta)
    ensures
        chunk.deep_view().id == text_if_any(chunk.id),
        match (chunk.choices, chunk.deep_view().choices) {
            (Some(choices), Some(seen)) => {
                &&& seen.len() == choices@.len()
                &&& forall|i: int|
                    0 <= i < choices@.len() ==> #[trigger] seen[i] == choices@[i].deep_view()
            },
            (None, None) => true,
            _ => false,
        },
        choice.deep_view().finish_reason == text_if_any(choice.finish_reason),
        choice.deep_view().delta == match choice.delta {
            Some(delta) => Some(delta.deep_view()),
            None => None,
        },
        delta.deep_view().content == text_if_any(delta.content),
        match (delta.tool_calls, delta.deep_view().tool_calls) {
            (Some(calls), Some(seen)) => {
                &&& seen.len() == calls@.len()
                &&& forall|i: int|
                    0 <= i < calls@.len() ==> #[trigger] seen[i] == calls@[i].deep_view()
            },
            (None, None) => true,
            _ => false,
        },
{
}

/// The pieces of a tool call are seen with all that came of them, and a call as far as it has come.
pub proof fn law_call_deltas_are_seen_whole(
    delta: ToolCallDelta,
    function: FunctionDelta,
    call: ToolCallBuilder,
)
    ensures
        delta.deep_view().index == delta.index,
        delta.deep_view().id == text_if_any(delta.id),
        delta.deep_view().function == match delta.function {
            Some(function) => Some(function.deep_view()),
            None => None,
        },
        function.deep_view().name == text_if_any(function.name),
        function.deep_view().arguments == text_if_any(function.arguments),
        call.deep_view().id == call.id@,
        call.deep_view().name == call.name@,
        call.deep_view().arguments == call.arguments@,
{
}

/// An event is seen as what it is, with what it tells.
pub proof fn law_events_are_seen_whole(event: ResponseEvent)
    ensures
        match (event, event.deep_view()) {
            (
                ResponseEvent::Created { response_id },
                EventView::Created { response_id: seen },
            ) => seen == text_if_any(response_id),
            (ResponseEvent::OutputItemAdded(item), EventView::OutputItemAdded(seen)) => seen
                == item.deep_view(),
            (ResponseEvent::OutputTextDelta(text), EventView::OutputTextDelta(seen)) => seen
                == text@,
            (ResponseEvent::OutputItemDone(item), EventView::OutputItemDone(seen)) => seen
                == item.deep_view(),
            (
                ResponseEvent::Completed { response_id, end_turn, .. },
                EventView::Completed { response_id: seen, end_turn: over, .. },
            ) => seen == response_id@ && over == end_turn,
            _ => false,
        },
{
}

/// What a step tells is seen one for one, in its order: an event as what it is, and a fault with its
/// words.
pub proof fn law_what_is_told_is_seen_whole(
    results: Seq<Result<ResponseEvent, ApiError>>,
    events: Seq<EventView>,
)
    ensures
        told_by(results).len() == results.len(),
        forall|i: int|
            0 <= i < results.len() ==> match (#[trigger] results[i], told_by(results)[i]) {
                (Ok(event), Ok(seen)) => seen == event.deep_view(),
                (Err(ApiError::Stream(words)), Err(ErrorView::Stream(seen))) => seen == words@,
                (
                    Err(ApiError::InvalidRequest { message }),
                    Err(ErrorView::InvalidRequest { message: seen }),
                ) => seen == message@,
                _ => false,
            },
        all_told(events).len() == events.len(),
        forall|i: int|
            0 <= i < events.len() ==> #[trigger] all_told(events)[i] == Ok::<
                EventView,
                ErrorView,
            >(events[i]),
{
    assert forall|i: int| 0 <= i < results.len() implies match (
        #[trigger] results[i],
        told_by(results)[i],
    ) {
        (Ok(event), Ok(seen)) => seen == event.deep_view(),
        (Err(ApiError::Stream(words)), Err(ErrorView::Stream(seen))) => seen == words@,
        (
            Err(ApiError::InvalidRequest { message }),
            Err(ErrorView::InvalidRequest { message: seen }),
        ) => seen == message@,
        _ => false,
    } by {
        assert(told_by(results)[i] == outcome(results[i]));
    }
}

/// A JSON value is seen as what it is: the items of an array one for one and in their order, and the
/// members of an object by their names.
pub proof fn law_json_is_seen_whole(json: Json)
    ensures
        match (json, json.value()) {
            (Json::Null, JsonView::Null) => true,
            (Json::Bool(b), JsonView::Bool(seen)) => seen == b,
            (Json::Number(n), JsonView::Number(seen)) => seen == n,
            (Json::String(text), JsonView::String(seen)) => seen == text@,
            (Json::Array(items), JsonView::Array(seen)) => {
                &&& seen.len() == items@.len()
                &&& forall|i: int|
                    0 <= i < items@.len() ==> #[trigger] seen[i] == items@[i].value()
            },
            (Json::Object(members), JsonView::Object(seen)) => seen == members.members(),
            _ => false,
        },
{
}

} // verus!
