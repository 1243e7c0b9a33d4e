//! How tool calls are put together from their pieces.

use vstd::prelude::*;

use crate::chunk::{CallDeltaView, ChoiceView, ChunkView};
use crate::turn::{
    after_call_delta, after_call_deltas, after_choice, after_choices, after_chunk, after_text,
    or_empty, starts_call, with_continued_call, with_new_call, CallView, TurnView,
};

verus! {

/// The index of a delta; a missing one is the first.
pub open spec fn index_of(delta: CallDeltaView) -> usize {
    match delta.index {
        Some(index) => index,
        None => 0,
    }
}

/// A text that may be missing; a missing one is empty.
pub open spec fn given(text: Option<Seq<char>>) -> Seq<char> {
    match text {
        Some(text) => text,
        None => Seq::empty(),
    }
}

/// What a delta adds to a name.
pub open spec fn name_piece(delta: CallDeltaView) -> Seq<char> {
    match delta.function {
        Some(function) => given(function.name),
        None => Seq::empty(),
    }
}

/// What a delta adds to the arguments.
pub open spec fn argument_piece(delta: CallDeltaView) -> Seq<char> {
    match delta.function {
        Some(function) => given(function.arguments),
        None => Seq::empty(),
    }
}

/// The call last started at the index of a delta has the identifier of the delta.
pub open spec fn is_known(turn: TurnView, delta: CallDeltaView) -> bool {
    &&& turn.slots.dom().contains(index_of(delta))
    &&& turn.calls[turn.slots[index_of(delta)] as int].id == given(delta.id)
}

/// `call` has become `later`: it goes by the same identifier, and its name and its arguments have
/// only been added to.
pub open spec fn became(call: CallView, later: CallView) -> bool {
    &&& later.id == call.id
    &&& call.name.is_prefix_of(later.name)
    &&& call.arguments.is_prefix_of(later.arguments)
}

/// `calls` have become `later`: none is gone or has moved.
pub open spec fn all_became(calls: Seq<CallView>, later: Seq<CallView>) -> bool {
    &&& calls.len() <= later.len()
    &&& forall|i: int| 0 <= i < calls.len() ==> became(#[trigger] calls[i], later[i])
}

/// What holds of what has been gathered at any time: every slot leads to a call, no two to the
/// same, and every call has an identifier.
pub open spec fn in_order(turn: TurnView) -> bool {
    &&& turn.wf()
    &&& forall|i: usize, j: usize| #[trigger]
        turn.slots.dom().contains(i) && #[trigger] turn.slots.dom().contains(j) && i != j
            ==> turn.slots[i] != turn.slots[j]
    &&& forall|i: int| 0 <= i < turn.calls.len() ==> (#[trigger] turn.calls[i]).id.len() > 0
}

/// Every slot of `turn` is still there in `later`, and leads to no earlier call than before.
pub open spec fn slots_kept(turn: TurnView, later: TurnView) -> bool {
    forall|index: usize| #[trigger]
        turn.slots.dom().contains(index) ==> later.slots.dom().contains(index)
            && turn.slots[index] <= later.slots[index]
}

/// `turn` has become `later`: it has lost nothing, and is in order if it was.
spec fn went_on(turn: TurnView, later: TurnView) -> bool {
    &&& later.wf()
    &&& all_became(turn.calls, later.calls)
    &&& slots_kept(turn, later)
    &&& in_order(turn) ==> in_order(later)
}

/// Going on goes on.
proof fn lemma_went_further(one: TurnView, two: TurnView, three: TurnView)
    requires
        went_on(one, two),
        went_on(two, three),
    ensures
        went_on(one, three),
{
    lemma_became_goes_on(one.calls, two.calls, three.calls);
    assert forall|index: usize| #[trigger]
        one.slots.dom().contains(index) implies three.slots.dom().contains(index)
        && one.slots[index] <= three.slots[index] by {
        assert(two.slots.dom().contains(index));
    }
}

/// Where neither the calls nor the slots have changed.
proof fn lemma_nothing_went(turn: TurnView, later: TurnView)
    requires
        turn.wf(),
        later.calls == turn.calls,
        later.slots == turn.slots,
    ensures
        went_on(turn, later),
{
    lemma_nothing_became(turn.calls);
}

/// A delta takes nothing from what has been gathered.
proof fn lemma_delta(turn: TurnView, delta: CallDeltaView)
    requires
        turn.wf(),
    ensures
        went_on(turn, after_call_delta(turn, delta)),
{
    let index = index_of(delta);
    let id = or_empty(delta.id);
    let started = if starts_call(turn, index, id) {
        with_new_call(turn, index, id)
    } else {
        turn
    };
    let after = after_call_delta(turn, delta);
    assert(after == with_continued_call(started, index, delta.function));
    assert forall|i: usize| #[trigger] started.slots.dom().contains(i) implies started.slots[i]
        < started.calls.len() by {
        if i != index || started == turn {
            assert(turn.slots.dom().contains(i));
        }
    }
    assert forall|i: usize| #[trigger] turn.slots.dom().contains(i) implies after.slots.dom().contains(
        i,
    ) && turn.slots[i] <= after.slots[i] by {
        assert(turn.slots[i] < turn.calls.len());
    }
    if in_order(turn) {
        assert forall|i: int| 0 <= i < started.calls.len() implies (
        #[trigger] started.calls[i]).id.len() > 0 by {
            if i < turn.calls.len() {
                assert(started.calls[i] == turn.calls[i]);
            }
        }
        assert forall|i: usize, j: usize| #[trigger]
            started.slots.dom().contains(i) && #[trigger] started.slots.dom().contains(j) && i
                != j implies started.slots[i] != started.slots[j] by {
            if i != index || started == turn {
                assert(turn.slots.dom().contains(i));
            }
            if j != index || started == turn {
                assert(turn.slots.dom().contains(j));
            }
        }
        assert(in_order(started));
    }
    assert forall|i: int| 0 <= i < started.calls.len() implies became(
        #[trigger] started.calls[i],
        after.calls[i],
    ) by {
        let call = started.calls[i];
        assert(call.name.is_prefix_of(call.name));
        assert(call.arguments.is_prefix_of(call.arguments));
        if let Some(function) = delta.function {
            assert(call.name.is_prefix_of(call.name + or_empty(function.name)));
            assert(call.arguments.is_prefix_of(call.arguments + or_empty(function.arguments)));
        }
    }
    assert forall|i: int| 0 <= i < turn.calls.len() implies became(
        #[trigger] turn.calls[i],
        after.calls[i],
    ) by {
        assert(started.calls[i] == turn.calls[i]);
    }
    if in_order(turn) {
        assert forall|i: int| 0 <= i < after.calls.len() implies (
        #[trigger] after.calls[i]).id.len() > 0 by {
            assert(became(started.calls[i], after.calls[i]));
        }
    }
}

/// Becoming goes on.
proof fn lemma_became_goes_on(one: Seq<CallView>, two: Seq<CallView>, three: Seq<CallView>)
    requires
        all_became(one, two),
        all_became(two, three),
    ensures
        all_became(one, three),
{
    assert forall|i: int| 0 <= i < one.len() implies became(#[trigger] one[i], three[i]) by {
        assert(became(one[i], two[i]));
        assert(became(two[i], three[i]));
    }
}

/// A list of deltas takes nothing from what has been gathered.
proof fn lemma_deltas(turn: TurnView, deltas: Seq<CallDeltaView>)
    requires
        turn.wf(),
    ensures
        went_on(turn, after_call_deltas(turn, deltas)),
    decreases deltas.len(),
{
    if deltas.len() > 0 {
        let before = after_call_deltas(turn, deltas.drop_last());
        lemma_deltas(turn, deltas.drop_last());
        lemma_delta(before, deltas.last());
        lemma_went_further(turn, before, after_call_deltas(turn, deltas));
    } else {
        lemma_nothing_went(turn, turn);
    }
}

/// Calls to which nothing was added.
proof fn lemma_nothing_became(calls: Seq<CallView>)
    ensures
        all_became(calls, calls),
{
    assert forall|i: int| 0 <= i < calls.len() implies became(#[trigger] calls[i], calls[i]) by {
        assert(calls[i].name.is_prefix_of(calls[i].name));
        assert(calls[i].arguments.is_prefix_of(calls[i].arguments));
    }
}

/// A piece of an answer takes nothing from what has been gathered.
proof fn lemma_choice(turn: TurnView, choice: ChoiceView, new_id: Seq<char>)
    requires
        turn.wf(),
    ensures
        went_on(turn, after_choice(turn, choice, new_id).turn),
{
    let noted = if or_empty(choice.finish_reason).len() > 0 {
        TurnView { finish_reason: choice.finish_reason, ..turn }
    } else {
        turn
    };
    lemma_nothing_went(turn, noted);
    if let Some(delta) = choice.delta {
        let told = after_text(noted, or_empty(delta.content), new_id).turn;
        lemma_nothing_went(turn, told);
        if let Some(deltas) = delta.tool_calls {
            lemma_deltas(told, deltas);
            lemma_went_further(turn, told, after_call_deltas(told, deltas));
        }
    }
}

/// A list of pieces takes nothing from what has been gathered.
proof fn lemma_choices(turn: TurnView, choices: Seq<ChoiceView>, new_id: Seq<char>)
    requires
        turn.wf(),
    ensures
        went_on(turn, after_choices(turn, choices, new_id).turn),
    decreases choices.len(),
{
    if choices.len() > 0 {
        let before = after_choices(turn, choices.drop_last(), new_id).turn;
        lemma_choices(turn, choices.drop_last(), new_id);
        lemma_choice(before, choices.last(), new_id);
        lemma_went_further(turn, before, after_choices(turn, choices, new_id).turn);
    } else {
        lemma_nothing_went(turn, turn);
    }
}

/// A chunk takes nothing from what has been gathered.
proof fn lemma_chunk(turn: TurnView, chunk: ChunkView, new_id: Seq<char>)
    requires
        turn.wf(),
    ensures
        went_on(turn, after_chunk(turn, chunk, new_id).turn),
{
    let named = if turn.stream_id is None {
        TurnView { stream_id: chunk.id, ..turn }
    } else {
        turn
    };
    lemma_nothing_went(turn, named);
    if let Some(choices) = chunk.choices {
        lemma_choices(named, choices, new_id);
        lemma_went_further(turn, named, after_choices(named, choices, new_id).turn);
    }
}

/// Whatever chunk comes, the calls stay in the order in which they were started, none is lost or
/// gets another identifier, and their names and arguments are only added to. Every slot is kept, and
/// leads to the same call or to a later one.
pub proof fn law_calls_only_grow(turn: TurnView, chunk: ChunkView, new_id: Seq<char>)
    requires
        turn.wf(),
    ensures
        after_chunk(turn, chunk, new_id).turn.wf(),
        all_became(turn.calls, after_chunk(turn, chunk, new_id).turn.calls),
        slots_kept(turn, after_chunk(turn, chunk, new_id).turn),
{
    lemma_chunk(turn, chunk, new_id);
}

/// Whatever chunk comes, what has been gathered stays in order: every slot leads to a call, no two to
/// the same, and every call has an identifier.
pub proof fn law_turns_stay_in_order(turn: TurnView, chunk: ChunkView, new_id: Seq<char>)
    requires
        in_order(turn),
    ensures
        in_order(after_chunk(turn, chunk, new_id).turn),
{
    lemma_chunk(turn, chunk, new_id);
}

/// A delta with an identifier that the call last started at its index does not have starts a call
/// of its own, with what the delta says of its name and arguments, and leaves every other call as it
/// was: also one at the same index.
pub proof fn law_new_identifiers_start_calls(turn: TurnView, delta: CallDeltaView)
    requires
        given(delta.id).len() > 0,
        !is_known(turn, delta),
    ensures
        after_call_delta(turn, delta) == (TurnView {
            calls: turn.calls.push(
                CallView {
                    id: given(delta.id),
                    name: name_piece(delta),
                    arguments: argument_piece(delta),
                },
            ),
            slots: turn.slots.insert(index_of(delta), turn.calls.len()),
            ..turn
        }),
{
    let after = after_call_delta(turn, delta);
    let new = CallView {
        id: given(delta.id),
        name: name_piece(delta),
        arguments: argument_piece(delta),
    };
    let call = after.calls[turn.calls.len() as int];
    assert(call.name =~= new.name);
    assert(call.arguments =~= new.arguments);
    assert(after.calls =~= turn.calls.push(new));
}

/// A delta without an identifier, or with that of the call last started at its index, adds what it
/// says to the name and the arguments of that call, and leaves every other call as it was.
pub proof fn law_other_deltas_continue_calls(turn: TurnView, delta: CallDeltaView)
    requires
        given(delta.id).len() == 0 || is_known(turn, delta),
        turn.slots.dom().contains(index_of(delta)),
    ensures
        ({
            let at = turn.slots[index_of(delta)] as int;
            let call = turn.calls[at];
            after_call_delta(turn, delta) == TurnView {
                calls: turn.calls.update(
                    at,
                    CallView {
                        id: call.id,
                        name: call.name + name_piece(delta),
                        arguments: call.arguments + argument_piece(delta),
                    },
                ),
                ..turn
            }
        }),
{
    let at = turn.slots[index_of(delta)] as int;
    let call = turn.calls[at];
    let none = Seq::<char>::empty();
    assert(call.name + none =~= call.name);
    assert(call.arguments + none =~= call.arguments);
}

/// A delta without an identifier at an index where no call was started is passed over.
pub proof fn law_stray_deltas_are_passed_over(turn: TurnView, delta: CallDeltaView)
    requires
        given(delta.id).len() == 0,
        !turn.slots.dom().contains(index_of(delta)),
    ensures
        after_call_delta(turn, delta) == turn,
{
}

/// A delta at one index leaves the call that was last started at another index as it was.
pub proof fn law_indices_do_not_mix(turn: TurnView, delta: CallDeltaView, other: usize)
    requires
        in_order(turn),
        turn.slots.dom().contains(other),
        other != index_of(delta),
    ensures
        ({
            let after = after_call_delta(turn, delta);
            &&& after.slots.contains_pair(other, turn.slots[other])
            &&& after.calls[turn.slots[other] as int] == turn.calls[turn.slots[other] as int]
        }),
{
    let index = index_of(delta);
    if !starts_call(turn, index, or_empty(delta.id)) && turn.slots.dom().contains(index) {
        assert(turn.slots[index] != turn.slots[other]);
    }
}

/// What a list of deltas adds to a name.
pub open spec fn name_pieces(deltas: Seq<CallDeltaView>) -> Seq<char>
    decreases deltas.len(),
{
    if deltas.len() == 0 {
        Seq::empty()
    } else {
        name_pieces(deltas.drop_last()) + name_piece(deltas.last())
    }
}

/// What a list of deltas adds to the arguments.
pub open spec fn argument_pieces(deltas: Seq<CallDeltaView>) -> Seq<char>
    decreases deltas.len(),
{
    if deltas.len() == 0 {
        Seq::empty()
    } else {
        argument_pieces(deltas.drop_last()) + argument_piece(deltas.last())
    }
}

/// The pieces of one call, which come one after the other at its index without another identifier,
/// are joined: its name and its arguments are what was there with all the pieces behind it.
pub proof fn law_pieces_are_joined(turn: TurnView, deltas: Seq<CallDeltaView>, index: usize)
    requires
        turn.wf(),
        turn.slots.dom().contains(index),
        forall|i: int|
            0 <= i < deltas.len() ==> index_of(#[trigger] deltas[i]) == index && (given(
                deltas[i].id,
            ).len() == 0 || given(deltas[i].id) == turn.calls[turn.slots[index] as int].id),
    ensures
        ({
            let at = turn.slots[index] as int;
            let call = turn.calls[at];
            after_call_deltas(turn, deltas) == TurnView {
                calls: turn.calls.update(
                    at,
                    CallView {
                        id: call.id,
                        name: call.name + name_pieces(deltas),
                        arguments: call.arguments + argument_pieces(deltas),
                    },
                ),
                ..turn
            }
        }),
    decreases deltas.len(),
{
    let at = turn.slots[index] as int;
    let call = turn.calls[at];
    let after = after_call_deltas(turn, deltas);
    if deltas.len() == 0 {
        assert(call.name + name_pieces(deltas) =~= call.name);
        assert(call.arguments + argument_pieces(deltas) =~= call.arguments);
        assert(turn.calls.update(at, call) =~= turn.calls);
    } else {
        let fewer = deltas.drop_last();
        let last = deltas.last();
        assert forall|i: int| 0 <= i < fewer.len() implies index_of(#[trigger] fewer[i]) == index
            && (given(fewer[i].id).len() == 0 || given(fewer[i].id) == call.id) by {
            assert(fewer[i] == deltas[i]);
        }
        law_pieces_are_joined(turn, fewer, index);
        let before = after_call_deltas(turn, fewer);
        assert(last == deltas[deltas.len() - 1]);
        assert(before.calls[at].id == call.id);
        law_other_deltas_continue_calls(before, last);
        assert(after.calls[at].name =~= call.name + name_pieces(deltas));
        assert(after.calls[at].arguments =~= call.arguments + argument_pieces(deltas));
        assert(after.calls =~= turn.calls.update(
            at,
            CallView {
                id: call.id,
                name: call.name + name_pieces(deltas),
                arguments: call.arguments + argument_pieces(deltas),
            },
        ));
    }
}

} // verus!
