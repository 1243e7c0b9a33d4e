//! A response is what its chunks make of it.

use vstd::prelude::*;
use vstd::utf8::*;

use crate::chunk::ChunkView;
use crate::error::ErrorView;
use crate::laws::framing::lemma_done_keeps_nothing;
use crate::laws::transcript::{course, told_at, Ending, Occasion};
use crate::protocol::EventView;
use crate::sse::{at_hand, framed, last_block, utf8_fault};
use crate::stream::{
    advanced, all_told, having_read, opening, Fresh, InputView, NextView, SessionView, Told,
};
use crate::tool_map::KindView;
use crate::turn::{after_chunk, empty_turn, Step};

verus! {

/// A chunk that was decoded, and the identifier that the message goes by if it opens there.
pub struct Piece {
    pub chunk: ChunkView,
    pub message: Seq<char>,
}

/// The chunks that were decoded while the response was under way, in their order.
pub open spec fn pieces(tools: Map<Seq<char>, KindView>, occasions: Seq<Occasion>) -> Seq<Piece>
    decreases occasions.len(),
{
    if occasions.len() == 0 {
        Seq::empty()
    } else {
        let before = pieces(tools, occasions.drop_last());
        let last = occasions.last();
        match last.input {
            InputView::Decoded(Some(chunk)) => if course(
                tools,
                occasions.drop_last(),
            ).next is Stop {
                before
            } else {
                before.push(Piece { chunk, message: last.fresh.message })
            },
            _ => before,
        }
    }
}

/// What a list of chunks comes to, and what is told of it.
pub open spec fn after_pieces(pieces: Seq<Piece>) -> Step
    decreases pieces.len(),
{
    if pieces.len() == 0 {
        Step { turn: empty_turn(), events: Seq::empty() }
    } else {
        let before = after_pieces(pieces.drop_last());
        let last = pieces.last();
        let step = after_chunk(before.turn, last.chunk, last.message);
        Step { turn: step.turn, events: before.events + step.events }
    }
}

/// What is told of a list of chunks, behind the beginning.
pub open spec fn told_of(pieces: Seq<Piece>) -> Seq<Told> {
    seq![Ok::<EventView, ErrorView>(opening())] + all_told(after_pieces(pieces).events)
}

/// What has been gathered, and all that has been told, comes of the chunks that were decoded, one
/// after the other, and of nothing else; at the end there is either a fault, or what is told at the
/// end of a response that came to that.
pub proof fn law_a_response_is_what_its_chunks_make_of_it(
    tools: Map<Seq<char>, KindView>,
    occasions: Seq<Occasion>,
)
    ensures
        ({
            let now = course(tools, occasions);
            let read = pieces(tools, occasions);
            &&& now.session.tools == tools
            &&& now.next !is Stop ==> now.session.turn == after_pieces(read).turn && now.told
                == told_of(read)
            &&& now.next is Stop ==> exists|ending: Ending|
                now.told == told_of(read) + #[trigger] told_at(
                    ending,
                    after_pieces(read).turn,
                    tools,
                )
        }),
    decreases occasions.len(),
{
    let now = course(tools, occasions);
    let read = pieces(tools, occasions);
    if occasions.len() == 0 {
        assert(told_of(read) =~= now.told);
    } else {
        let fewer = occasions.drop_last();
        let before = course(tools, fewer);
        let known = pieces(tools, fewer);
        law_a_response_is_what_its_chunks_make_of_it(tools, fewer);
        if before.next !is Stop {
            let last = occasions.last();
            let session = before.session;
            match last.input {
                InputView::Decoded(Some(chunk)) => {
                    let step = after_chunk(session.turn, chunk, last.fresh.message);
                    assert(read.drop_last() =~= known);
                    let told = before.told + all_told(step.events);
                    assert(told =~= told_of(read));
                    let moved = SessionView { turn: step.turn, ..session };
                    lemma_ended(told, moved, last.fresh);
                    assert(now.told =~= told + advanced(moved, last.fresh).told);
                },
                InputView::Decoded(None) => lemma_ended(before.told, session, last.fresh),
                InputView::Closed => {
                    lemma_ended(before.told, SessionView { ended: true, ..session }, last.fresh);
                },
                InputView::Bytes(bytes) => if valid_utf8(bytes) {
                    let moved = having_read(session, decode_utf8(bytes));
                    lemma_ended(before.told, moved, last.fresh);
                } else {
                    let ending = Ending::Fault("UTF-8 error: "@ + utf8_fault(bytes));
                    assert(now.told == before.told + told_at(ending, session.turn, tools));
                },
                InputView::Broken(fault) => {
                    let ending = Ending::Fault("byte stream error: "@ + fault);
                    assert(now.told == before.told + told_at(ending, session.turn, tools));
                },
            }
        }
    }
}

/// Going on either tells nothing and changes nothing of what is gathered, or ends the response.
proof fn lemma_ended(told: Seq<Told>, session: SessionView, fresh: Fresh)
    ensures
        ({
            let after = advanced(session, fresh);
            let all = told + after.told;
            &&& after.session.tools == session.tools
            &&& after.next !is Stop ==> after.session.turn == session.turn && all == told
            &&& after.next is Stop ==> exists|ending: Ending|
                all == told + #[trigger] told_at(ending, session.turn, session.tools)
        }),
{
    let after = advanced(session, fresh);
    if after.next is Stop {
        let ending = Ending::Whole { items: fresh.items, response: fresh.response };
        assert(after.told == told_at(ending, session.turn, session.tools));
    } else {
        assert(told + after.told =~= told);
    }
}

/// `input` is an answer to what was asked for.
pub open spec fn answers(input: InputView, next: NextView) -> bool {
    match next {
        NextView::Read => input !is Decoded,
        NextView::Decode(_) => input is Decoded,
        NextView::Stop => true,
    }
}

/// Every occasion is an answer to what was asked for before it.
pub open spec fn all_answer(tools: Map<Seq<char>, KindView>, occasions: Seq<Occasion>) -> bool
    decreases occasions.len(),
{
    occasions.len() > 0 ==> all_answer(tools, occasions.drop_last()) && answers(
        occasions.last().input,
        course(tools, occasions.drop_last()).next,
    )
}

/// All that was asked to be decoded, in its order.
pub open spec fn asked_for(
    tools: Map<Seq<char>, KindView>,
    occasions: Seq<Occasion>,
) -> Seq<Seq<char>>
    decreases occasions.len(),
{
    if occasions.len() == 0 {
        Seq::empty()
    } else {
        let before = asked_for(tools, occasions.drop_last());
        match course(tools, occasions).next {
            NextView::Decode(data) => before.push(data),
            _ => before,
        }
    }
}

/// All the data blocks that came, in their order; at the end of the stream also the one that no
/// blank line ended.
pub open spec fn came(tools: Map<Seq<char>, KindView>, occasions: Seq<Occasion>) -> Seq<Seq<char>>
    decreases occasions.len(),
{
    if occasions.len() == 0 {
        Seq::empty()
    } else {
        let before = came(tools, occasions.drop_last());
        let now = course(tools, occasions.drop_last());
        if now.next is Stop {
            before
        } else {
            match occasions.last().input {
                InputView::Bytes(bytes) => if valid_utf8(bytes) {
                    before + framed(at_hand(now.session.frame, decode_utf8(bytes))).blocks
                } else {
                    before
                },
                InputView::Closed => match last_block(now.session.frame.data) {
                    Some(data) => before.push(data),
                    None => before,
                },
                _ => before,
            }
        }
    }
}

/// Every data block that comes is asked to be decoded, once and in its order: what was asked for,
/// and then what still waits, is all that came. Nothing waits once a response that met no fault is
/// at its end.
pub proof fn law_every_block_is_decoded_once(
    tools: Map<Seq<char>, KindView>,
    occasions: Seq<Occasion>,
)
    requires
        all_answer(tools, occasions),
    ensures
        ({
            let now = course(tools, occasions);
            &&& asked_for(tools, occasions) + now.session.waiting == came(tools, occasions)
            &&& now.next is Read ==> now.session.waiting.len() == 0 && !now.session.ended
            &&& now.next is Stop && now.told.last() is Ok ==> now.session.waiting.len() == 0
            &&& now.session.ended ==> now.session.frame.data.len() == 0
        }),
    decreases occasions.len(),
{
    let now = course(tools, occasions);
    let asked = asked_for(tools, occasions);
    if occasions.len() == 0 {
        assert(asked + now.session.waiting =~= came(tools, occasions));
    } else {
        let fewer = occasions.drop_last();
        let before = course(tools, fewer);
        let last = occasions.last();
        let known = asked_for(tools, fewer);
        law_every_block_is_decoded_once(tools, fewer);
        if before.next is Stop {
            assert(now == before);
        } else {
            let waited = before.session.waiting;
            let new = came(tools, occasions);
            match last.input {
                InputView::Bytes(bytes) => if valid_utf8(bytes) {
                    let text = decode_utf8(bytes);
                    let blocks = framed(at_hand(before.session.frame, text)).blocks;
                    lemma_done_keeps_nothing(at_hand(before.session.frame, text));
                    assert(known + waited =~= known);
                    assert(waited + blocks =~= blocks);
                    assert(new == known + blocks);
                    if blocks.len() > 0 {
                        assert(known.push(blocks.first()) + blocks.drop_first() =~= known
                            + blocks);
                    } else {
                        assert(known + blocks =~= known);
                    }
                },
                InputView::Closed => {
                    assert(known + waited =~= known);
                    if let Some(data) = last_block(before.session.frame.data) {
                        assert(known.push(data) + waited =~= known.push(data));
                    }
                },
                InputView::Broken(_) => {},
                InputView::Decoded(_) => if waited.len() > 0 {
                    assert(known.push(waited.first()) + waited.drop_first() =~= known + waited);
                },
            }
        }
    }
}

} // verus!
