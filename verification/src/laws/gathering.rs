//! What comes of the contents of chunks: what is told of the text, and what is kept of it.

use vstd::prelude::*;

use crate::chunk::{CallDeltaView, ChoiceView, ChunkView};
use crate::error::ErrorView;
use crate::laws::chunks::{
    after_pieces, law_a_response_is_what_its_chunks_make_of_it, pieces, told_of, Piece,
};
use crate::laws::endings::law_completion_comes_last;
use crate::laws::transcript::{course, told_at, told_text, Ending, Occasion};
use crate::protocol::{EventView, ItemView};
use crate::response::final_events;
use crate::stream::{all_told, opening, Told};
use crate::tool_map::KindView;
use crate::turn::{
    after_call_delta, after_call_deltas, after_choice, after_choices, after_chunk, after_text,
    empty_turn, lemma_call_deltas_keep, or_empty, TurnView,
};

verus! {

/// The text that a choice adds, which may be empty.
pub open spec fn content_of(choice: ChoiceView) -> Seq<char> {
    match choice.delta {
        Some(delta) => match delta.content {
            Some(text) => text,
            None => Seq::empty(),
        },
        None => Seq::empty(),
    }
}

/// The texts that choices add, in their order; empty ones are none.
pub open spec fn contents(choices: Seq<ChoiceView>) -> Seq<Seq<char>>
    decreases choices.len(),
{
    if choices.len() == 0 {
        Seq::empty()
    } else if content_of(choices.last()).len() > 0 {
        contents(choices.drop_last()).push(content_of(choices.last()))
    } else {
        contents(choices.drop_last())
    }
}

/// The texts that a chunk adds, in their order.
pub open spec fn contents_of(chunk: ChunkView) -> Seq<Seq<char>> {
    match chunk.choices {
        Some(choices) => contents(choices),
        None => Seq::empty(),
    }
}

/// Texts put together, character for character.
pub open spec fn together(texts: Seq<Seq<char>>) -> Seq<char>
    decreases texts.len(),
{
    if texts.len() == 0 {
        Seq::empty()
    } else {
        together(texts.drop_last()) + texts.last()
    }
}

/// One delta for each text.
pub open spec fn as_deltas(texts: Seq<Seq<char>>) -> Seq<EventView> {
    Seq::new(texts.len(), |i: int| EventView::OutputTextDelta(texts[i]))
}

/// That the assistant's message begins, still empty.
pub open spec fn announcement(id: Seq<char>) -> EventView {
    EventView::OutputItemAdded(
        ItemView::Message {
            id: Some(id),
            role: "assistant"@,
            content: Seq::empty(),
            phase: None,
            internal_chat_message_metadata_passthrough: None,
        },
    )
}

/// What is told of texts that are added to a message, which may have to be announced first.
pub open spec fn told_of_contents(
    open: Option<Seq<char>>,
    texts: Seq<Seq<char>>,
    new_id: Seq<char>,
) -> Seq<EventView> {
    if open is None && texts.len() > 0 {
        seq![announcement(new_id)] + as_deltas(texts)
    } else {
        as_deltas(texts)
    }
}

/// The identifier of a message to which texts were added.
pub open spec fn opened(
    open: Option<Seq<char>>,
    texts: Seq<Seq<char>>,
    new_id: Seq<char>,
) -> Option<Seq<char>> {
    if open is None && texts.len() > 0 {
        Some(new_id)
    } else {
        open
    }
}

/// What one choice does to the text.
proof fn lemma_choice_content(turn: TurnView, choice: ChoiceView, new_id: Seq<char>)
    ensures
        ({
            let said = content_of(choice);
            let texts = if said.len() > 0 {
                seq![said]
            } else {
                Seq::empty()
            };
            let after = after_choice(turn, choice, new_id);
            &&& after.events == told_of_contents(turn.text_id, texts, new_id)
            &&& after.turn.text == turn.text + said
            &&& after.turn.text_id == opened(turn.text_id, texts, new_id)
        }),
{
    let said = content_of(choice);
    let noted = if or_empty(choice.finish_reason).len() > 0 {
        TurnView { finish_reason: choice.finish_reason, ..turn }
    } else {
        turn
    };
    let after = after_choice(turn, choice, new_id);
    assert(turn.text + Seq::<char>::empty() =~= turn.text);
    assert(as_deltas(Seq::empty()) =~= Seq::<EventView>::empty());
    assert(as_deltas(seq![said]) =~= seq![EventView::OutputTextDelta(said)]);
    match choice.delta {
        Some(delta) => {
            assert(or_empty(delta.content) == said);
            let told = after_text(noted, said, new_id);
            if said.len() > 0 {
                assert(told.events =~= told_of_contents(turn.text_id, seq![said], new_id));
            }
            if let Some(deltas) = delta.tool_calls {
                lemma_call_deltas_keep(told.turn, deltas);
            }
        },
        None => {},
    }
}

/// What a list of choices does to the text.
proof fn lemma_choices_content(turn: TurnView, choices: Seq<ChoiceView>, new_id: Seq<char>)
    ensures
        ({
            let texts = contents(choices);
            let after = after_choices(turn, choices, new_id);
            &&& after.events == told_of_contents(turn.text_id, texts, new_id)
            &&& after.turn.text == turn.text + together(texts)
            &&& after.turn.text_id == opened(turn.text_id, texts, new_id)
        }),
    decreases choices.len(),
{
    let texts = contents(choices);
    let after = after_choices(turn, choices, new_id);
    assert(as_deltas(Seq::empty()) =~= Seq::<EventView>::empty());
    if choices.len() == 0 {
        assert(turn.text + together(texts) =~= turn.text);
    } else {
        let fewer = contents(choices.drop_last());
        let before = after_choices(turn, choices.drop_last(), new_id);
        let said = content_of(choices.last());
        lemma_choices_content(turn, choices.drop_last(), new_id);
        lemma_choice_content(before.turn, choices.last(), new_id);
        if said.len() > 0 {
            assert(texts.drop_last() =~= fewer);
            assert(as_deltas(texts) =~= as_deltas(fewer) + as_deltas(seq![said]));
            assert(after.turn.text =~= turn.text + together(texts));
            assert(after.events =~= told_of_contents(turn.text_id, texts, new_id));
        } else {
            assert(after.turn.text =~= turn.text + together(texts));
            assert(after.events =~= told_of_contents(turn.text_id, texts, new_id));
        }
    }
}

/// Each text that a chunk adds is told as one delta, as it is, in its order; before the first of a
/// response the message is announced; and nothing else is told of a chunk. What is kept of the text
/// is what was kept, and all that the chunk adds behind it.
pub proof fn law_each_content_is_told_as_it_comes(
    turn: TurnView,
    chunk: ChunkView,
    new_id: Seq<char>,
)
    ensures
        ({
            let texts = contents_of(chunk);
            let after = after_chunk(turn, chunk, new_id);
            &&& after.events == told_of_contents(turn.text_id, texts, new_id)
            &&& after.turn.text == turn.text + together(texts)
            &&& after.turn.text_id == opened(turn.text_id, texts, new_id)
        }),
{
    let named = if turn.stream_id is None {
        TurnView { stream_id: chunk.id, ..turn }
    } else {
        turn
    };
    match chunk.choices {
        Some(choices) => lemma_choices_content(named, choices, new_id),
        None => {
            assert(as_deltas(Seq::empty()) =~= Seq::<EventView>::empty());
            assert(turn.text + together(Seq::empty()) =~= turn.text);
        },
    }
}

/// The texts of the deltas among what is told, in their order.
pub open spec fn deltas_in(told: Seq<Told>) -> Seq<Seq<char>>
    decreases told.len(),
{
    if told.len() == 0 {
        Seq::empty()
    } else {
        match told.last() {
            Ok(EventView::OutputTextDelta(text)) => deltas_in(told.drop_last()).push(text),
            _ => deltas_in(told.drop_last()),
        }
    }
}

/// The texts that a list of chunks adds, in their order.
pub open spec fn contents_of_all(pieces: Seq<Piece>) -> Seq<Seq<char>>
    decreases pieces.len(),
{
    if pieces.len() == 0 {
        Seq::empty()
    } else {
        contents_of_all(pieces.drop_last()) + contents_of(pieces.last().chunk)
    }
}

/// The deltas of what is told in two parts are those of both.
proof fn lemma_deltas_in(first: Seq<Told>, second: Seq<Told>)
    ensures
        deltas_in(first + second) == deltas_in(first) + deltas_in(second),
    decreases second.len(),
{
    if second.len() == 0 {
        assert(first + second =~= first);
        assert(deltas_in(first) + deltas_in(second) =~= deltas_in(first));
    } else {
        lemma_deltas_in(first, second.drop_last());
        assert((first + second).drop_last() =~= first + second.drop_last());
        assert(deltas_in(first + second) =~= deltas_in(first) + deltas_in(second));
    }
}

/// Deltas are the deltas among themselves.
proof fn lemma_as_deltas(texts: Seq<Seq<char>>)
    ensures
        deltas_in(all_told(as_deltas(texts))) == texts,
    decreases texts.len(),
{
    let told = all_told(as_deltas(texts));
    if texts.len() > 0 {
        lemma_as_deltas(texts.drop_last());
        assert(told.drop_last() =~= all_told(as_deltas(texts.drop_last())));
        assert(deltas_in(told) =~= texts);
    } else {
        assert(deltas_in(told) =~= texts);
    }
}

/// Where no delta is told, there is none.
proof fn lemma_no_deltas(told: Seq<Told>)
    requires
        forall|i: int|
            0 <= i < told.len() ==> !(#[trigger] told[i] matches Ok(
                EventView::OutputTextDelta(_),
            )),
    ensures
        deltas_in(told) == Seq::<Seq<char>>::empty(),
    decreases told.len(),
{
    if told.len() > 0 {
        let fewer = told.drop_last();
        assert(told.last() == told[told.len() - 1]);
        assert forall|i: int| 0 <= i < fewer.len() implies !(#[trigger] fewer[i] matches Ok(
            EventView::OutputTextDelta(_),
        )) by {
            assert(fewer[i] == told[i]);
        }
        lemma_no_deltas(fewer);
    }
}

/// The text told is that of its deltas.
proof fn lemma_told_together(told: Seq<Told>)
    ensures
        told_text(told) == together(deltas_in(told)),
    decreases told.len(),
{
    if told.len() > 0 {
        lemma_told_together(told.drop_last());
        if let Ok(EventView::OutputTextDelta(text)) = told.last() {
            let fewer = deltas_in(told.drop_last());
            assert(fewer.push(text).drop_last() =~= fewer);
        } else {
            assert(told_text(told) =~= told_text(told.drop_last()));
        }
    }
}

/// The deltas of chunks, one after the other, are their contents.
proof fn lemma_pieces_told(pieces: Seq<Piece>)
    ensures
        deltas_in(told_of(pieces)) == contents_of_all(pieces),
        after_pieces(pieces).turn.text == together(contents_of_all(pieces)),
    decreases pieces.len(),
{
    let begun = seq![Ok::<EventView, ErrorView>(opening())];
    assert(begun.drop_last() =~= Seq::<Told>::empty());
    reveal_with_fuel(deltas_in, 2);
    if pieces.len() == 0 {
        assert(told_of(pieces) =~= begun);
    } else {
        let fewer = pieces.drop_last();
        let last = pieces.last();
        let before = after_pieces(fewer);
        let step = after_chunk(before.turn, last.chunk, last.message);
        let texts = contents_of(last.chunk);
        lemma_pieces_told(fewer);
        law_each_content_is_told_as_it_comes(before.turn, last.chunk, last.message);
        assert(told_of(pieces) =~= told_of(fewer) + all_told(step.events));
        lemma_deltas_in(told_of(fewer), all_told(step.events));
        lemma_as_deltas(texts);
        if before.turn.text_id is None && texts.len() > 0 {
            let first = seq![Ok::<EventView, ErrorView>(announcement(last.message))];
            assert(first.drop_last() =~= Seq::<Told>::empty());
            assert(all_told(step.events) =~= first + all_told(as_deltas(texts)));
            lemma_deltas_in(first, all_told(as_deltas(texts)));
            assert(deltas_in(first) =~= Seq::<Seq<char>>::empty());
            assert(deltas_in(all_told(step.events)) =~= texts);
        }
        lemma_together(contents_of_all(fewer), texts);
    }
}

/// Texts that are put together in two parts.
proof fn lemma_together(first: Seq<Seq<char>>, second: Seq<Seq<char>>)
    ensures
        together(first + second) == together(first) + together(second),
    decreases second.len(),
{
    if second.len() == 0 {
        assert(first + second =~= first);
        assert(together(first) + together(second) =~= together(first));
    } else {
        lemma_together(first, second.drop_last());
        assert((first + second).drop_last() =~= first + second.drop_last());
        assert(together(first + second) =~= together(first) + together(second));
    }
}

/// The deltas that are told of a response are the contents of its chunks, one for one and in their
/// order, character for character; the text that is told is all of them put together, and while the
/// response is under way it is the text that has been gathered.
pub proof fn law_the_text_is_that_of_the_chunks(
    tools: Map<Seq<char>, KindView>,
    occasions: Seq<Occasion>,
)
    ensures
        ({
            let now = course(tools, occasions);
            let texts = contents_of_all(pieces(tools, occasions));
            &&& deltas_in(now.told) == texts
            &&& told_text(now.told) == together(texts)
            &&& now.next !is Stop ==> now.session.turn.text == together(texts)
        }),
{
    let now = course(tools, occasions);
    let read = pieces(tools, occasions);
    law_a_response_is_what_its_chunks_make_of_it(tools, occasions);
    lemma_pieces_told(read);
    if now.next is Stop {
        let begun = told_of(read);
        let ending = choose|ending: Ending|
            now.told == begun + #[trigger] told_at(ending, after_pieces(read).turn, tools);
        let more = told_at(ending, after_pieces(read).turn, tools);
        if let Ending::Whole { items, response } = ending {
            law_completion_comes_last(after_pieces(read).turn, tools, items, response);
            let events = final_events(after_pieces(read).turn, tools, items, response);
            assert forall|i: int| 0 <= i < more.len() implies !(#[trigger] more[i] matches Ok(
                EventView::OutputTextDelta(_),
            )) by {
                assert(more[i] == Ok::<EventView, ErrorView>(events[i]));
            }
        }
        lemma_no_deltas(more);
        lemma_deltas_in(begun, more);
        assert(deltas_in(now.told) =~= contents_of_all(read));
    }
    lemma_told_together(now.told);
}

/// The deltas of tool calls in choices, in their order.
pub open spec fn call_deltas(choices: Seq<ChoiceView>) -> Seq<CallDeltaView>
    decreases choices.len(),
{
    if choices.len() == 0 {
        Seq::empty()
    } else {
        let before = call_deltas(choices.drop_last());
        match choices.last().delta {
            Some(delta) => match delta.tool_calls {
                Some(deltas) => before + deltas,
                None => before,
            },
            None => before,
        }
    }
}

/// The deltas of tool calls in a chunk, in their order.
pub open spec fn call_deltas_of(chunk: ChunkView) -> Seq<CallDeltaView> {
    match chunk.choices {
        Some(choices) => call_deltas(choices),
        None => Seq::empty(),
    }
}

/// Deltas are taken one after the other.
pub proof fn law_deltas_are_taken_one_by_one(
    turn: TurnView,
    deltas: Seq<CallDeltaView>,
    last: CallDeltaView,
)
    ensures
        after_call_deltas(turn, Seq::empty()) == turn,
        after_call_deltas(turn, deltas.push(last)) == after_call_delta(
            after_call_deltas(turn, deltas),
            last,
        ),
{
    assert(deltas.push(last).drop_last() =~= deltas);
}

/// Two lists of deltas are taken one after the other.
proof fn lemma_deltas_in_turn(
    turn: TurnView,
    first: Seq<CallDeltaView>,
    second: Seq<CallDeltaView>,
)
    ensures
        after_call_deltas(turn, first + second) == after_call_deltas(
            after_call_deltas(turn, first),
            second,
        ),
    decreases second.len(),
{
    if second.len() == 0 {
        assert(first + second =~= first);
    } else {
        lemma_deltas_in_turn(turn, first, second.drop_last());
        assert((first + second).drop_last() =~= first + second.drop_last());
    }
}

/// Nothing but the calls and their slots matters to the deltas of calls.
proof fn lemma_only_calls_matter(one: TurnView, other: TurnView, deltas: Seq<CallDeltaView>)
    requires
        one.calls == other.calls,
        one.slots == other.slots,
    ensures
        after_call_deltas(one, deltas).calls == after_call_deltas(other, deltas).calls,
        after_call_deltas(one, deltas).slots == after_call_deltas(other, deltas).slots,
    decreases deltas.len(),
{
    if deltas.len() > 0 {
        lemma_only_calls_matter(one, other, deltas.drop_last());
    }
}

/// What a list of choices does to the calls.
proof fn lemma_choices_calls(turn: TurnView, choices: Seq<ChoiceView>, new_id: Seq<char>)
    ensures
        ({
            let after = after_choices(turn, choices, new_id).turn;
            let taken = after_call_deltas(turn, call_deltas(choices));
            after.calls == taken.calls && after.slots == taken.slots
        }),
    decreases choices.len(),
{
    if choices.len() > 0 {
        let before = after_choices(turn, choices.drop_last(), new_id).turn;
        let taken = after_call_deltas(turn, call_deltas(choices.drop_last()));
        let choice = choices.last();
        lemma_choices_calls(turn, choices.drop_last(), new_id);
        let noted = if or_empty(choice.finish_reason).len() > 0 {
            TurnView { finish_reason: choice.finish_reason, ..before }
        } else {
            before
        };
        if let Some(delta) = choice.delta {
            let told = after_text(noted, or_empty(delta.content), new_id).turn;
            if let Some(deltas) = delta.tool_calls {
                lemma_only_calls_matter(told, taken, deltas);
                lemma_deltas_in_turn(turn, call_deltas(choices.drop_last()), deltas);
            }
        }
    }
}

/// The calls that a chunk leads to come of the deltas of calls in it, taken in their order, and of
/// nothing else in it.
pub proof fn law_every_call_delta_of_a_chunk_is_taken(
    turn: TurnView,
    chunk: ChunkView,
    new_id: Seq<char>,
)
    ensures
        ({
            let after = after_chunk(turn, chunk, new_id).turn;
            let taken = after_call_deltas(turn, call_deltas_of(chunk));
            after.calls == taken.calls && after.slots == taken.slots
        }),
{
    let named = if turn.stream_id is None {
        TurnView { stream_id: chunk.id, ..turn }
    } else {
        turn
    };
    if let Some(choices) = chunk.choices {
        lemma_choices_calls(named, choices, new_id);
        lemma_only_calls_matter(named, turn, call_deltas(choices));
    }
}

/// Before the first chunk nothing has been gathered.
pub proof fn law_a_response_begins_with_nothing()
    ensures
        empty_turn().text_id is None,
        empty_turn().text.len() == 0,
        empty_turn().calls.len() == 0,
        empty_turn().slots.dom() == Set::<usize>::empty(),
        empty_turn().stream_id is None,
        empty_turn().finish_reason is None,
{
}

} // verus!
