//! What is told of a response from its beginning to its end.

use vstd::prelude::*;
use vstd::utf8::*;

use crate::chunk::{ChoiceView, ChunkView};
use crate::error::ErrorView;
use crate::laws::calls::{in_order, law_turns_stay_in_order};
use crate::laws::endings::{is_call, law_completion_comes_last, whole_message};
use crate::laws::framing::lemma_done_keeps_nothing;
use crate::protocol::{ContentView, EventView, ItemView};
use crate::response::final_events;
use crate::sse::{at_hand, last_block, utf8_fault};
use crate::stream::{
    advanced, all_told, having_read, new_session, opening, reaction, told_before, Fresh, InputView, NextView,
    ReactionView, SessionView, Told,
};
use crate::tool_map::KindView;
use crate::turn::{
    after_choice, after_choices, after_chunk, after_text, lemma_call_deltas_keep, or_empty,
    TurnView,
};

verus! {

/// What came of what a step asked for, and the identifiers that the step takes.
pub struct Occasion {
    pub input: InputView,
    pub fresh: Fresh,
}

/// A response from its beginning over these occasions: what is known then, all that has been told,
/// and what was asked for last. Nothing happens any more once the response is at its end.
pub open spec fn course(tools: Map<Seq<char>, KindView>, occasions: Seq<Occasion>) -> ReactionView
    decreases occasions.len(),
{
    if occasions.len() == 0 {
        ReactionView {
            session: new_session(tools),
            told: seq![Ok::<EventView, ErrorView>(opening())],
            next: NextView::Read,
        }
    } else {
        let before = course(tools, occasions.drop_last());
        if before.next is Stop {
            before
        } else {
            let last = occasions.last();
            told_before(before.told, reaction(before.session, last.input, last.fresh))
        }
    }
}

/// The text in an event.
pub open spec fn text_in(told: Told) -> Seq<char> {
    match told {
        Ok(EventView::OutputTextDelta(text)) => text,
        _ => Seq::empty(),
    }
}

/// The text that has been told, piece after piece.
pub open spec fn told_text(told: Seq<Told>) -> Seq<char>
    decreases told.len(),
{
    if told.len() == 0 {
        Seq::empty()
    } else {
        told_text(told.drop_last()) + text_in(told.last())
    }
}

/// The text of what is told in two parts is that of both.
proof fn lemma_told_text(first: Seq<Told>, second: Seq<Told>)
    ensures
        told_text(first + second) == told_text(first) + told_text(second),
    decreases second.len(),
{
    if second.len() == 0 {
        assert(first + second =~= first);
        assert(told_text(first) + told_text(second) =~= told_text(first));
    } else {
        lemma_told_text(first, second.drop_last());
        assert((first + second).drop_last() =~= first + second.drop_last());
        assert(told_text(first + second) =~= told_text(first) + told_text(second));
    }
}

/// The message is announced by this identifier, still empty.
pub open spec fn announces(told: Told, id: Seq<char>) -> bool {
    told == Ok::<EventView, ErrorView>(
        EventView::OutputItemAdded(
            ItemView::Message {
                id: Some(id),
                role: "assistant"@,
                content: Seq::empty(),
                phase: None,
                internal_chat_message_metadata_passthrough: None,
            },
        ),
    )
}

/// What has been told while a response is under way: its beginning; then, once there is text, the
/// message, under the identifier that is kept for it; and then its text, which is the text that has
/// been gathered.
pub open spec fn under_way(told: Seq<Told>, turn: TurnView) -> bool {
    &&& told.len() > 0
    &&& told[0] == Ok::<EventView, ErrorView>(opening())
    &&& match turn.text_id {
        Some(id) => {
            &&& told.len() > 2
            &&& announces(told[1], id)
            &&& forall|i: int| 2 <= i < told.len() ==> text_in(#[trigger] told[i]).len() > 0
        },
        None => told.len() == 1,
    }
    &&& told_text(told) == turn.text
}

/// How a response ends.
pub enum Ending {
    /// With a fault of the stream.
    Fault(Seq<char>),
    /// As it should, its calls and the response under these identifiers.
    Whole { items: Seq<Seq<char>>, response: Seq<char> },
}

/// What is told at the end of a response of which this has been gathered.
pub open spec fn told_at(
    ending: Ending,
    turn: TurnView,
    tools: Map<Seq<char>, KindView>,
) -> Seq<Told> {
    match ending {
        Ending::Fault(message) => seq![Err::<EventView, ErrorView>(ErrorView::Stream(message))],
        Ending::Whole { items, response } => all_told(final_events(turn, tools, items, response)),
    }
}

/// All that is told of a response that has come to its end: what was told while it was under way,
/// and then what is told at the end.
pub open spec fn at_its_end(
    told: Seq<Told>,
    before: Seq<Told>,
    turn: TurnView,
    ending: Ending,
    tools: Map<Seq<char>, KindView>,
) -> bool {
    &&& under_way(before, turn)
    &&& in_order(turn)
    &&& told == before + told_at(ending, turn, tools)
}

/// A piece of text keeps what is told in line with what is gathered.
proof fn lemma_text_told(told: Seq<Told>, turn: TurnView, content: Seq<char>, new_id: Seq<char>)
    requires
        under_way(told, turn),
    ensures
        ({
            let step = after_text(turn, content, new_id);
            under_way(told + all_told(step.events), step.turn)
        }),
{
    let step = after_text(turn, content, new_id);
    let more = all_told(step.events);
    let all = told + more;
    lemma_told_text(told, more);
    reveal_with_fuel(told_text, 3);
    if content.len() == 0 {
        assert(all =~= told);
    } else {
        match turn.text_id {
            Some(id) => {
                assert(more.drop_last() =~= Seq::<Told>::empty());
                assert(told_text(more) =~= content);
            },
            None => {
                assert(more.drop_last().drop_last() =~= Seq::<Told>::empty());
                assert(told_text(more) =~= content);
                assert(all[1] == more[0]);
                assert(all[2] == more[1]);
            },
        }
        assert forall|i: int| 2 <= i < all.len() implies text_in(#[trigger] all[i]).len() > 0 by {
            if i < told.len() {
                assert(all[i] == told[i]);
            } else {
                assert(all[i] == more[i - told.len()]);
            }
        }
    }
}

/// A piece of an answer does so too.
proof fn lemma_choice_told(
    told: Seq<Told>,
    turn: TurnView,
    choice: ChoiceView,
    new_id: Seq<char>,
)
    requires
        under_way(told, turn),
    ensures
        ({
            let step = after_choice(turn, choice, new_id);
            under_way(told + all_told(step.events), step.turn)
        }),
{
    let noted = if or_empty(choice.finish_reason).len() > 0 {
        TurnView { finish_reason: choice.finish_reason, ..turn }
    } else {
        turn
    };
    assert(under_way(told, noted));
    match choice.delta {
        Some(delta) => {
            lemma_text_told(told, noted, or_empty(delta.content), new_id);
            let step = after_text(noted, or_empty(delta.content), new_id);
            if let Some(deltas) = delta.tool_calls {
                lemma_call_deltas_keep(step.turn, deltas);
            }
        },
        None => {
            assert(told + all_told(Seq::empty()) =~= told);
        },
    }
}

/// A list of pieces does so too.
proof fn lemma_choices_told(
    told: Seq<Told>,
    turn: TurnView,
    choices: Seq<ChoiceView>,
    new_id: Seq<char>,
)
    requires
        under_way(told, turn),
    ensures
        ({
            let step = after_choices(turn, choices, new_id);
            under_way(told + all_told(step.events), step.turn)
        }),
    decreases choices.len(),
{
    if choices.len() == 0 {
        assert(told + all_told(Seq::empty()) =~= told);
    } else {
        let before = after_choices(turn, choices.drop_last(), new_id);
        lemma_choices_told(told, turn, choices.drop_last(), new_id);
        let so_far = told + all_told(before.events);
        let last = after_choice(before.turn, choices.last(), new_id);
        lemma_choice_told(so_far, before.turn, choices.last(), new_id);
        assert(so_far + all_told(last.events) =~= told + all_told(before.events + last.events));
    }
}

/// A chunk does so too.
proof fn lemma_chunk_told(told: Seq<Told>, turn: TurnView, chunk: ChunkView, new_id: Seq<char>)
    requires
        under_way(told, turn),
    ensures
        ({
            let step = after_chunk(turn, chunk, new_id);
            under_way(told + all_told(step.events), step.turn)
        }),
{
    let named = if turn.stream_id is None {
        TurnView { stream_id: chunk.id, ..turn }
    } else {
        turn
    };
    assert(under_way(told, named));
    match chunk.choices {
        Some(choices) => lemma_choices_told(told, named, choices, new_id),
        None => {
            assert(told + all_told(Seq::empty()) =~= told);
        },
    }
}

/// Going on as things stand either tells nothing and changes nothing of what is gathered, or ends
/// the response.
proof fn lemma_advanced(session: SessionView, fresh: Fresh)
    ensures
        ({
            let after = advanced(session, fresh);
            &&& after.session.tools == session.tools
            &&& after.next !is Stop ==> after.told.len() == 0 && after.session.turn == session.turn
            &&& after.next is Stop ==> after.told == told_at(
                Ending::Whole { items: fresh.items, response: fresh.response },
                session.turn,
                session.tools,
            )
        }),
{
}

/// Whatever comes: while a response is under way, what has been told is its beginning and then the
/// message and its text, which is the text that has been gathered; and once it is at its end, what
/// was told then is followed by either a fault, or all that is told at the end of such a response.
pub proof fn law_what_is_told(tools: Map<Seq<char>, KindView>, occasions: Seq<Occasion>)
    ensures
        ({
            let now = course(tools, occasions);
            &&& now.session.tools == tools
            &&& now.next !is Stop ==> under_way(now.told, now.session.turn) && in_order(
                now.session.turn,
            )
            &&& now.next is Stop ==> exists|before: Seq<Told>, turn: TurnView, ending: Ending|
                at_its_end(now.told, before, turn, ending, tools)
        }),
    decreases occasions.len(),
{
    let now = course(tools, occasions);
    if occasions.len() == 0 {
        let begun = seq![Ok::<EventView, ErrorView>(opening())];
        assert(begun.drop_last() =~= Seq::<Told>::empty());
        reveal_with_fuel(told_text, 2);
        assert(told_text(begun) =~= Seq::<char>::empty());
        assert(under_way(now.told, now.session.turn));
        assert(in_order(now.session.turn));
    } else {
        let before = course(tools, occasions.drop_last());
        law_what_is_told(tools, occasions.drop_last());
        if before.next !is Stop {
            let last = occasions.last();
            let session = before.session;
            match last.input {
                InputView::Decoded(Some(chunk)) => {
                    let step = after_chunk(session.turn, chunk, last.fresh.message);
                    let told = before.told + all_told(step.events);
                    lemma_chunk_told(before.told, session.turn, chunk, last.fresh.message);
                    law_turns_stay_in_order(session.turn, chunk, last.fresh.message);
                    let moved = SessionView { turn: step.turn, ..session };
                    lemma_went_on(told, moved, last.fresh);
                    let after = advanced(moved, last.fresh);
                    assert(now.told =~= told + after.told);
                    assert(now.session == after.session && now.next == after.next);
                },
                InputView::Decoded(None) => lemma_went_on(before.told, session, last.fresh),
                InputView::Closed => {
                    lemma_went_on(
                        before.told,
                        SessionView { ended: true, ..session },
                        last.fresh,
                    );
                },
                InputView::Bytes(bytes) => {
                    if valid_utf8(bytes) {
                        let moved = having_read(session, decode_utf8(bytes));
                        lemma_went_on(before.told, moved, last.fresh);
                    } else {
                        let message = "UTF-8 error: "@ + utf8_fault(bytes);
                        assert(at_its_end(
                            now.told,
                            before.told,
                            session.turn,
                            Ending::Fault(message),
                            tools,
                        ));
                    }
                },
                InputView::Broken(fault) => {
                    let message = "byte stream error: "@ + fault;
                    assert(at_its_end(
                        now.told,
                        before.told,
                        session.turn,
                        Ending::Fault(message),
                        tools,
                    ));
                },
            }
        }
    }
}

/// Going on keeps what is told in line with what is gathered.
proof fn lemma_went_on(told: Seq<Told>, session: SessionView, fresh: Fresh)
    requires
        under_way(told, session.turn),
        in_order(session.turn),
    ensures
        ({
            let after = advanced(session, fresh);
            let all = told + after.told;
            &&& after.session.tools == session.tools
            &&& after.next !is Stop ==> under_way(all, after.session.turn) && in_order(
                after.session.turn,
            )
            &&& after.next is Stop ==> exists|before: Seq<Told>, turn: TurnView, ending: Ending|
                at_its_end(all, before, turn, ending, session.tools)
        }),
{
    lemma_advanced(session, fresh);
    let after = advanced(session, fresh);
    if after.next is Stop {
        let ending = Ending::Whole { items: fresh.items, response: fresh.response };
        assert(at_its_end(told + after.told, told, session.turn, ending, session.tools));
    } else {
        assert(told + after.told =~= told);
    }
}

/// What has been told is not taken back, nor is anything put before it.
pub proof fn law_nothing_is_taken_back(
    tools: Map<Seq<char>, KindView>,
    occasions: Seq<Occasion>,
    earlier: nat,
)
    requires
        earlier <= occasions.len(),
    ensures
        course(tools, occasions.take(earlier as int)).told.is_prefix_of(
            course(tools, occasions).told,
        ),
    decreases occasions.len(),
{
    let now = course(tools, occasions).told;
    if earlier == occasions.len() {
        assert(occasions.take(earlier as int) =~= occasions);
        assert(now.is_prefix_of(now));
    } else {
        let fewer = occasions.drop_last();
        let before = course(tools, fewer).told;
        law_nothing_is_taken_back(tools, fewer, earlier);
        assert(fewer.take(earlier as int) =~= occasions.take(earlier as int));
        assert(before.is_prefix_of(now));
        let then = course(tools, occasions.take(earlier as int)).told;
        assert(then.is_prefix_of(now)) by {
            assert(then =~= now.subrange(0, then.len() as int));
        }
    }
}

/// An ending: a fault, or that the response is complete.
pub open spec fn ends(told: Told) -> bool {
    told is Err || told matches Ok(EventView::Completed { .. })
}

/// What is told of a response that has come to its end, in its two parts.
proof fn lemma_parts(
    told: Seq<Told>,
    before: Seq<Told>,
    turn: TurnView,
    ending: Ending,
    tools: Map<Seq<char>, KindView>,
)
    requires
        at_its_end(told, before, turn, ending, tools),
    ensures
        told.len() > before.len() > 0,
        forall|i: int| 0 <= i < before.len() ==> #[trigger] told[i] == before[i],
        forall|i: int|
            before.len() <= i < told.len() - 1 ==> match #[trigger] told[i] {
                Ok(EventView::OutputItemAdded(item)) => is_call(item),
                Ok(EventView::OutputItemDone(item)) => is_call(item) || (turn.text_id matches Some(
                    id,
                ) && item == whole_message(id, turn.text)),
                _ => false,
            },
        ends(told.last()),
        told_text(told) == turn.text,
{
    let more = told_at(ending, turn, tools);
    if let Ending::Whole { items, response } = ending {
        law_completion_comes_last(turn, tools, items, response);
    }
    assert forall|i: int| before.len() <= i < told.len() - 1 implies match #[trigger] told[i] {
        Ok(EventView::OutputItemAdded(item)) => is_call(item),
        Ok(EventView::OutputItemDone(item)) => is_call(item) || (turn.text_id matches Some(id)
            && item == whole_message(id, turn.text)),
        _ => false,
    } by {
        assert(told[i] == more[i - before.len()]);
    }
    assert(told.last() == more.last());
    assert forall|i: int| 0 <= i < more.len() implies text_in(#[trigger] more[i]).len() == 0 by {
        if i < more.len() - 1 {
            assert(told[before.len() + i] == more[i]);
        }
    }
    lemma_told_text(before, more);
    lemma_no_text(more);
    assert(told_text(before) + told_text(more) =~= turn.text);
}

/// Where no text is told, there is none.
proof fn lemma_no_text(told: Seq<Told>)
    requires
        forall|i: int| 0 <= i < told.len() ==> text_in(#[trigger] told[i]).len() == 0,
    ensures
        told_text(told) == Seq::<char>::empty(),
    decreases told.len(),
{
    if told.len() > 0 {
        let fewer = told.drop_last();
        assert forall|i: int| 0 <= i < fewer.len() implies text_in(
            #[trigger] fewer[i],
        ).len() == 0 by {
            assert(fewer[i] == told[i]);
        }
        lemma_no_text(fewer);
        assert(told.last() == told[told.len() - 1]);
        assert(told_text(told) =~= Seq::<char>::empty());
    }
}

/// The first thing that is told is that the response has begun, and it is told only once.
pub proof fn law_the_beginning_comes_first(
    tools: Map<Seq<char>, KindView>,
    occasions: Seq<Occasion>,
)
    ensures
        ({
            let told = course(tools, occasions).told;
            &&& told.len() > 0
            &&& told[0] == Ok::<EventView, ErrorView>(EventView::Created { response_id: None })
            &&& forall|i: int|
                0 < i < told.len() ==> !(#[trigger] told[i] matches Ok(EventView::Created { .. }))
        }),
{
    let now = course(tools, occasions);
    law_what_is_told(tools, occasions);
    if now.next is Stop {
        let (before, turn, ending) = choose|before: Seq<Told>, turn: TurnView, ending: Ending|
            at_its_end(now.told, before, turn, ending, tools);
        lemma_parts(now.told, before, turn, ending, tools);
        assert forall|i: int| 0 < i < now.told.len() implies !(#[trigger] now.told[i] matches Ok(
            EventView::Created { .. },
        )) by {
            if i < before.len() {
                assert(now.told[i] == before[i]);
                if i > 1 {
                    assert(text_in(before[i]).len() > 0);
                }
            }
        }
    }
}

/// A response ends once, and nothing is told behind its end: the last thing that is told of it is a
/// fault or that it is complete, exactly if it has come to its end, and nothing else that is told
/// is either.
pub proof fn law_a_response_ends_once(tools: Map<Seq<char>, KindView>, occasions: Seq<Occasion>)
    ensures
        ({
            let now = course(tools, occasions);
            &&& now.next is Stop <==> ends(now.told.last())
            &&& forall|i: int| 0 <= i < now.told.len() - 1 ==> !ends(#[trigger] now.told[i])
        }),
{
    let now = course(tools, occasions);
    law_what_is_told(tools, occasions);
    if now.next is Stop {
        let (before, turn, ending) = choose|before: Seq<Told>, turn: TurnView, ending: Ending|
            at_its_end(now.told, before, turn, ending, tools);
        lemma_parts(now.told, before, turn, ending, tools);
        assert forall|i: int| 0 <= i < now.told.len() - 1 implies !ends(
            #[trigger] now.told[i],
        ) by {
            if i < before.len() {
                assert(now.told[i] == before[i]);
                lemma_does_not_end(before, turn, i);
            }
        }
    } else {
        assert forall|i: int| 0 <= i < now.told.len() implies !ends(#[trigger] now.told[i]) by {
            lemma_does_not_end(now.told, now.session.turn, i);
        }
    }
}

/// While a response is under way, nothing that is told ends it.
proof fn lemma_does_not_end(told: Seq<Told>, turn: TurnView, i: int)
    requires
        under_way(told, turn),
        0 <= i < told.len(),
    ensures
        !ends(told[i]),
{
    if i > 1 {
        assert(text_in(told[i]).len() > 0);
    }
}

/// No text is told before the message that it belongs to: that is announced, still empty, right
/// behind the beginning.
pub proof fn law_text_is_announced(
    tools: Map<Seq<char>, KindView>,
    occasions: Seq<Occasion>,
    at: int,
)
    requires
        0 <= at < course(tools, occasions).told.len(),
        course(tools, occasions).told[at] matches Ok(EventView::OutputTextDelta(_)),
    ensures
        at > 1,
        exists|id: Seq<char>| announces(course(tools, occasions).told[1], id),
{
    let now = course(tools, occasions);
    law_what_is_told(tools, occasions);
    if now.next is Stop {
        let (before, turn, ending) = choose|before: Seq<Told>, turn: TurnView, ending: Ending|
            at_its_end(now.told, before, turn, ending, tools);
        lemma_parts(now.told, before, turn, ending, tools);
        assert(at < before.len());
        assert(now.told[at] == before[at]);
        assert(now.told[1] == before[1]);
        assert(announces(now.told[1], turn.text_id->0));
    } else {
        assert(announces(now.told[1], now.session.turn.text_id->0));
    }
}

/// Where the message is open, there is text.
proof fn lemma_text_is_told(told: Seq<Told>, turn: TurnView)
    requires
        under_way(told, turn),
        turn.text_id is Some,
    ensures
        turn.text.len() > 0,
{
    assert(text_in(told[told.len() - 1]).len() > 0);
    assert(told.last() == told[told.len() - 1]);
}

/// A finished message is the assistant's, and holds all the text that was told, its deltas put
/// together, in one part; it goes by the identifier under which it was announced.
pub proof fn law_the_message_holds_the_text(
    tools: Map<Seq<char>, KindView>,
    occasions: Seq<Occasion>,
    at: int,
    item: ItemView,
)
    requires
        0 <= at < course(tools, occasions).told.len(),
        course(tools, occasions).told[at] == Ok::<EventView, ErrorView>(
            EventView::OutputItemDone(item),
        ),
        item is Message,
    ensures
        exists|id: Seq<char>|
            #![trigger announces(course(tools, occasions).told[1], id)]
            announces(course(tools, occasions).told[1], id) && item == (ItemView::Message {
                id: Some(id),
                role: "assistant"@,
                content: seq![
                    ContentView::OutputText { text: told_text(course(tools, occasions).told) },
                ],
                phase: None,
                internal_chat_message_metadata_passthrough: None,
            }),
        told_text(course(tools, occasions).told).len() > 0,
{
    let now = course(tools, occasions);
    law_what_is_told(tools, occasions);
    if now.next is Stop {
        let (before, turn, ending) = choose|before: Seq<Told>, turn: TurnView, ending: Ending|
            at_its_end(now.told, before, turn, ending, tools);
        lemma_parts(now.told, before, turn, ending, tools);
        if at < before.len() {
            assert(now.told[at] == before[at]);
            if at > 1 {
                assert(text_in(before[at]).len() > 0);
            }
        }
        assert(now.told[1] == before[1]);
        assert(announces(now.told[1], turn.text_id->0));
        lemma_text_is_told(before, turn);
    } else {
        if at > 1 {
            assert(text_in(now.told[at]).len() > 0);
        }
    }
}

/// The data that is still to be decoded once the stream is at its end.
pub open spec fn left(session: SessionView) -> nat {
    session.waiting.len() + if last_block(session.frame.data) is Some {
        1nat
    } else {
        0
    }
}

/// Once the stream is at its end, nothing more is read, and the response comes to its end after the
/// data that is left.
pub proof fn law_a_closed_stream_comes_to_an_end(
    session: SessionView,
    chunk: Option<ChunkView>,
    fresh: Fresh,
)
    ensures
        ({
            let closed = reaction(session, InputView::Closed, fresh);
            &&& closed.session.ended
            &&& closed.next !is Read
        }),
        session.ended ==> ({
            let after = reaction(session, InputView::Decoded(chunk), fresh);
            &&& after.session.ended
            &&& if left(session) > 0 {
                after.next is Decode && left(after.session) < left(session)
            } else {
                after.next is Stop
            }
        }),
{
}

/// A step that reads that no more will come asks for no more: what waits is decoded, and when nothing
/// waits, the response is ended there and then.
pub proof fn law_done_is_the_end(session: SessionView, bytes: Seq<u8>, fresh: Fresh)
    requires
        valid_utf8(bytes),
        having_read(session, decode_utf8(bytes)).frame.done,
    ensures
        ({
            let read = having_read(session, decode_utf8(bytes));
            let after = reaction(session, InputView::Bytes(bytes), fresh);
            &&& after.session.ended
            &&& if read.waiting.len() > 0 {
                after.told.len() == 0 && after.next == NextView::Decode(read.waiting.first())
            } else {
                &&& after.next is Stop
                &&& after.told == all_told(
                    final_events(session.turn, session.tools, fresh.items, fresh.response),
                )
            }
        }),
{
    lemma_done_keeps_nothing(at_hand(session.frame, decode_utf8(bytes)));
}

/// Once it was read that no more will come, nothing more is asked for but to decode.
pub proof fn law_nothing_is_read_after_done(
    tools: Map<Seq<char>, KindView>,
    occasions: Seq<Occasion>,
)
    ensures
        ({
            let now = course(tools, occasions);
            &&& now.session.frame.done ==> now.session.ended
            &&& now.session.ended ==> now.next !is Read
        }),
    decreases occasions.len(),
{
    if occasions.len() > 0 {
        law_nothing_is_read_after_done(tools, occasions.drop_last());
    }
}

/// What a piece of an answer makes of the identifier of the response and of why the model stopped.
proof fn lemma_choice_notes(turn: TurnView, choice: ChoiceView, new_id: Seq<char>)
    ensures
        ({
            let after = after_choice(turn, choice, new_id).turn;
            &&& after.stream_id == turn.stream_id
            &&& after.finish_reason == if or_empty(choice.finish_reason).len() > 0 {
                choice.finish_reason
            } else {
                turn.finish_reason
            }
        }),
{
    if let Some(delta) = choice.delta {
        let noted = if or_empty(choice.finish_reason).len() > 0 {
            TurnView { finish_reason: choice.finish_reason, ..turn }
        } else {
            turn
        };
        let told = after_text(noted, or_empty(delta.content), new_id);
        if let Some(deltas) = delta.tool_calls {
            lemma_call_deltas_keep(told.turn, deltas);
        }
    }
}

/// Why the model stopped, after a list of pieces: the last reason that is one.
pub open spec fn last_reason(
    reason: Option<Seq<char>>,
    choices: Seq<ChoiceView>,
) -> Option<Seq<char>>
    decreases choices.len(),
{
    if choices.len() == 0 {
        reason
    } else if or_empty(choices.last().finish_reason).len() > 0 {
        choices.last().finish_reason
    } else {
        last_reason(reason, choices.drop_last())
    }
}

/// What a list of pieces makes of them.
proof fn lemma_choices_note(turn: TurnView, choices: Seq<ChoiceView>, new_id: Seq<char>)
    ensures
        ({
            let after = after_choices(turn, choices, new_id).turn;
            &&& after.stream_id == turn.stream_id
            &&& after.finish_reason == last_reason(turn.finish_reason, choices)
            &&& turn.finish_reason is Some ==> after.finish_reason is Some
        }),
    decreases choices.len(),
{
    if choices.len() > 0 {
        lemma_choices_note(turn, choices.drop_last(), new_id);
        let before = after_choices(turn, choices.drop_last(), new_id).turn;
        lemma_choice_notes(before, choices.last(), new_id);
    }
}

/// The response goes by the first identifier that comes with a chunk. Why the model stopped is what
/// it last said of it; a chunk that says nothing of it, or nothing at all, takes nothing back.
pub proof fn law_what_is_kept_of_chunks(turn: TurnView, chunk: ChunkView, new_id: Seq<char>)
    ensures
        ({
            let after = after_chunk(turn, chunk, new_id).turn;
            &&& after.stream_id == if turn.stream_id is Some {
                turn.stream_id
            } else {
                chunk.id
            }
            &&& after.finish_reason == match chunk.choices {
                Some(choices) => last_reason(turn.finish_reason, choices),
                None => turn.finish_reason,
            }
            &&& turn.finish_reason is Some ==> after.finish_reason is Some
        }),
{
    let named = if turn.stream_id is None {
        TurnView { stream_id: chunk.id, ..turn }
    } else {
        turn
    };
    if let Some(choices) = chunk.choices {
        lemma_choices_note(named, choices, new_id);
    }
}

} // verus!
