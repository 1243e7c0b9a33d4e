//! What is told at the end of a response.

use vstd::prelude::*;

use crate::protocol::{ContentView, EventView, ItemView};
use crate::response::{
    call_events, call_item, completed_event, fallback_calls, final_events, text_events,
    xml_call_id, xml_call_ids, xml_call_views,
};
use crate::text::{decimal, digit, lemma_split};
use crate::tool_map::KindView;
use crate::turn::{CallView, TurnView};
use crate::xml_calls::calls;

verus! {

/// The assistant's message with this text in one part, or without a part where there is none.
pub open spec fn whole_message(id: Seq<char>, text: Seq<char>) -> ItemView {
    ItemView::Message {
        id: Some(id),
        role: "assistant"@,
        content: if text.len() == 0 {
            Seq::empty()
        } else {
            seq![ContentView::OutputText { text }]
        },
        phase: None,
        internal_chat_message_metadata_passthrough: None,
    }
}

/// What is told last: that the response is complete, and whether the turn is over. It goes by the
/// identifier that it came with, or else by `new_id`.
pub open spec fn completion(
    stream_id: Option<Seq<char>>,
    new_id: Seq<char>,
    over: bool,
) -> EventView {
    EventView::Completed {
        response_id: match stream_id {
            Some(id) => id,
            None => new_id,
        },
        token_usage: None,
        usage_metadata: None,
        end_turn: Some(over),
    }
}

/// Tool calls are told in the order in which they were started, each of them as a whole: that it is
/// there, and then that it is done, with nothing between.
pub proof fn law_calls_are_told_whole(
    tools: Map<Seq<char>, KindView>,
    calls: Seq<CallView>,
    item_ids: Seq<Seq<char>>,
)
    ensures
        call_events(tools, calls, item_ids).len() == 2 * calls.len(),
        forall|k: int|
            #![trigger calls[k]]
            0 <= k < calls.len() ==> {
                let item = call_item(tools, calls[k], item_ids[k]);
                &&& call_events(tools, calls, item_ids)[2 * k] == EventView::OutputItemAdded(item)
                &&& call_events(tools, calls, item_ids)[2 * k + 1] == EventView::OutputItemDone(
                    item,
                )
            },
    decreases calls.len(),
{
    if calls.len() > 0 {
        let fewer = calls.drop_last();
        let before = call_events(tools, fewer, item_ids);
        let all = call_events(tools, calls, item_ids);
        law_calls_are_told_whole(tools, fewer, item_ids);
        assert forall|k: int|
            #![trigger calls[k]]
            0 <= k < calls.len() implies {
            let item = call_item(tools, calls[k], item_ids[k]);
            &&& all[2 * k] == EventView::OutputItemAdded(item)
            &&& all[2 * k + 1] == EventView::OutputItemDone(item)
        } by {
            if k < fewer.len() {
                assert(fewer[k] == calls[k]);
                assert(all[2 * k] == before[2 * k]);
                assert(all[2 * k + 1] == before[2 * k + 1]);
            } else {
                assert(before.len() == 2 * k);
            }
        }
    }
}

/// An item that is a call of a tool.
pub open spec fn is_call(item: ItemView) -> bool {
    item is FunctionCall || item is CustomToolCall
}

/// What is told of tool calls is told of calls alone.
proof fn lemma_call_events_are_of_calls(
    tools: Map<Seq<char>, KindView>,
    calls: Seq<CallView>,
    item_ids: Seq<Seq<char>>,
)
    ensures
        forall|i: int|
            0 <= i < call_events(tools, calls, item_ids).len() ==> match #[trigger] call_events(
                tools,
                calls,
                item_ids,
            )[i] {
                EventView::OutputItemAdded(item) => is_call(item),
                EventView::OutputItemDone(item) => is_call(item),
                _ => false,
            },
        calls.len() > 0 ==> call_events(tools, calls, item_ids)[0] is OutputItemAdded,
{
    let all = call_events(tools, calls, item_ids);
    law_calls_are_told_whole(tools, calls, item_ids);
    assert forall|i: int| 0 <= i < all.len() implies match #[trigger] all[i] {
        EventView::OutputItemAdded(item) => is_call(item),
        EventView::OutputItemDone(item) => is_call(item),
        _ => false,
    } by {
        let k = i / 2;
        let call = calls[k];
        assert(i == 2 * k || i == 2 * k + 1);
    }
    if calls.len() > 0 {
        let call = calls[0];
        assert(all[0] is OutputItemAdded);
    }
}

/// In no text there are no calls.
proof fn lemma_no_text_no_calls(text: Seq<char>)
    ensures
        text.len() == 0 ==> calls(text).len() == 0,
{
    reveal_strlit("<function=");
    lemma_split(text, "<function="@);
}

/// What is told last is that the response is complete, and that is told once. What is told before
/// it is the finished message, or of calls.
pub proof fn law_completion_comes_last(
    turn: TurnView,
    tools: Map<Seq<char>, KindView>,
    item_ids: Seq<Seq<char>>,
    new_id: Seq<char>,
)
    ensures
        ({
            let told = final_events(turn, tools, item_ids, new_id);
            &&& told.len() > 0
            &&& told.last() == completion(
                turn.stream_id,
                new_id,
                turn.calls.len() == 0 && calls(turn.text).len() == 0,
            )
            &&& forall|i: int|
                0 <= i < told.len() - 1 ==> match #[trigger] told[i] {
                    EventView::OutputItemAdded(item) => is_call(item),
                    EventView::OutputItemDone(item) => is_call(item) || (turn.text_id matches Some(
                        id,
                    ) && item == whole_message(id, turn.text)),
                    _ => false,
                }
        }),
{
    let of_text = text_events(turn, tools);
    let of_calls = call_events(tools, turn.calls, item_ids);
    let told = final_events(turn, tools, item_ids, new_id);
    let found = fallback_calls(turn);
    lemma_call_events_are_of_calls(tools, xml_call_views(found), xml_call_ids(found));
    lemma_call_events_are_of_calls(tools, turn.calls, item_ids);
    lemma_no_text_no_calls(turn.text);
    assert forall|i: int| 0 <= i < told.len() - 1 implies match #[trigger] told[i] {
        EventView::OutputItemAdded(item) => is_call(item),
        EventView::OutputItemDone(item) => is_call(item) || (turn.text_id matches Some(id) && item
            == whole_message(id, turn.text)),
        _ => false,
    } by {
        if i < of_text.len() {
            assert(told[i] == of_text[i]);
        } else {
            assert(told[i] == of_calls[i - of_text.len()]);
        }
    }
}

/// The turn is over exactly if no call is told.
pub proof fn law_the_turn_is_over_without_calls(
    turn: TurnView,
    tools: Map<Seq<char>, KindView>,
    item_ids: Seq<Seq<char>>,
    new_id: Seq<char>,
)
    ensures
        ({
            let told = final_events(turn, tools, item_ids, new_id);
            told.last()->end_turn == Some(
                forall|i: int| 0 <= i < told.len() ==> #[trigger] told[i] !is OutputItemAdded,
            )
        }),
{
    let of_text = text_events(turn, tools);
    let of_calls = call_events(tools, turn.calls, item_ids);
    let told = final_events(turn, tools, item_ids, new_id);
    let found = fallback_calls(turn);
    lemma_call_events_are_of_calls(tools, xml_call_views(found), xml_call_ids(found));
    lemma_call_events_are_of_calls(tools, turn.calls, item_ids);
    law_calls_are_told_whole(tools, turn.calls, item_ids);
    law_calls_are_told_whole(tools, xml_call_views(found), xml_call_ids(found));
    assert(told.last() == completed_event(turn, new_id));
    if found.len() > 0 {
        assert(told[0] == of_text[0]);
    } else if turn.calls.len() > 0 {
        assert(told[of_text.len() as int] == of_calls[0]);
    } else {
        assert forall|i: int| 0 <= i < told.len() implies #[trigger] told[i] !is OutputItemAdded by {
            if i < of_text.len() {
                assert(told[i] == of_text[i]);
            }
        }
    }
}

/// Where the model made calls, what looks like calls in its text is text: the finished message
/// holds it, and only the calls that the model made are told.
pub proof fn law_calls_suppress_the_fallback(
    turn: TurnView,
    tools: Map<Seq<char>, KindView>,
    item_ids: Seq<Seq<char>>,
    new_id: Seq<char>,
)
    requires
        turn.calls.len() > 0,
    ensures
        final_events(turn, tools, item_ids, new_id) == match turn.text_id {
            Some(id) => seq![
                EventView::OutputItemDone(whole_message(id, turn.text)),
            ],
            None => Seq::empty(),
        } + call_events(tools, turn.calls, item_ids) + seq![
            completion(turn.stream_id, new_id, false),
        ],
{
}

/// Where the model made no calls but wrote some into its text, these are told in its place, under
/// identifiers by their position: the text does not become a finished message.
pub proof fn law_the_fallback_replaces_the_message(
    turn: TurnView,
    tools: Map<Seq<char>, KindView>,
    item_ids: Seq<Seq<char>>,
    new_id: Seq<char>,
)
    requires
        turn.calls.len() == 0,
        calls(turn.text).len() > 0,
    ensures
        ({
            let found = calls(turn.text);
            final_events(turn, tools, item_ids, new_id) == call_events(
                tools,
                xml_call_views(found),
                xml_call_ids(found),
            ) + seq![completion(turn.stream_id, new_id, false)]
        }),
{
    let found = calls(turn.text);
    lemma_no_text_no_calls(turn.text);
    let of_text = call_events(tools, xml_call_views(found), xml_call_ids(found));
    assert(of_text + call_events(tools, turn.calls, item_ids) =~= of_text);
}

/// Where there are no calls of either kind, the finished message is all that is told before the
/// end, with the whole text, under the identifier that it was announced by.
pub proof fn law_plain_text_becomes_the_message(
    turn: TurnView,
    tools: Map<Seq<char>, KindView>,
    item_ids: Seq<Seq<char>>,
    new_id: Seq<char>,
    id: Seq<char>,
)
    requires
        turn.calls.len() == 0,
        calls(turn.text).len() == 0,
        turn.text_id == Some(id),
    ensures
        final_events(turn, tools, item_ids, new_id) == seq![
            EventView::OutputItemDone(whole_message(id, turn.text)),
            completion(turn.stream_id, new_id, true),
        ],
{
    assert(final_events(turn, tools, item_ids, new_id) =~= seq![
        EventView::OutputItemDone(whole_message(id, turn.text)),
        completion(turn.stream_id, new_id, true),
    ]);
}

/// Where the model said nothing and made no calls, only the end is told.
pub proof fn law_silence_is_complete(
    turn: TurnView,
    tools: Map<Seq<char>, KindView>,
    item_ids: Seq<Seq<char>>,
    new_id: Seq<char>,
)
    requires
        turn.calls.len() == 0,
        calls(turn.text).len() == 0,
        turn.text_id is None,
    ensures
        final_events(turn, tools, item_ids, new_id) == seq![
            completion(turn.stream_id, new_id, true),
        ],
{
    assert(final_events(turn, tools, item_ids, new_id) =~= seq![
        completion(turn.stream_id, new_id, true),
    ]);
}

/// A number is told by its digits.
proof fn lemma_decimal(a: nat, b: nat)
    requires
        decimal(a) == decimal(b),
    ensures
        a == b,
    decreases a,
{
    assert(decimal(a).last() == digit(a % 10));
    assert(decimal(b).last() == digit(b % 10));
    assert(a % 10 == b % 10);
    if a >= 10 && b >= 10 {
        assert(decimal(a).drop_last() =~= decimal(a / 10));
        assert(decimal(b).drop_last() =~= decimal(b / 10));
        lemma_decimal(a / 10, b / 10);
    } else if a >= 10 {
        assert(decimal(a / 10).len() > 0);
    } else if b >= 10 {
        assert(decimal(b / 10).len() > 0);
    }
}

/// No two calls in a text go by the same identifier.
pub proof fn law_calls_in_the_text_have_identifiers_of_their_own(one: nat, other: nat)
    requires
        one != other,
    ensures
        xml_call_id(one) != xml_call_id(other),
{
    let prefix = "xmlcall_"@;
    if xml_call_id(one) == xml_call_id(other) {
        let skip = prefix.len() as int;
        assert(xml_call_id(one).skip(skip) =~= decimal(one));
        assert(xml_call_id(other).skip(skip) =~= decimal(other));
        lemma_decimal(one, other);
    }
}

} // verus!
