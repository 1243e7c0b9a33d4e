//! Where the bytes of a response are cut does not matter to what is told of it.

use vstd::prelude::*;
use vstd::utf8::*;

use crate::chunk::{ChoiceView, ChunkView};
use crate::error::ErrorView;
use crate::laws::chunks::{all_answer, asked_for, came, law_every_block_is_decoded_once};
use crate::laws::framing::{
    followed_by, law_chunk_boundaries_do_not_matter, law_chunks_of_bytes_are_chunks_of_text,
    lemma_done_keeps_nothing,
};
use crate::laws::transcript::{
    course, last_reason, law_nothing_is_read_after_done, law_what_is_kept_of_chunks, left, Occasion,
};
use crate::protocol::EventView;
use crate::response::final_events;
use crate::sse::{at_hand, framed, last_block, new_frame, FrameView, Framed};
use crate::stream::{
    advanced, all_told, having_read, opening, Fresh, InputView, NextView, SessionView, Told,
};
use crate::text::lemma_split;
use crate::tool_map::KindView;
use crate::turn::{
    after_choice, after_choices, after_chunk, after_text, empty_turn, lemma_call_deltas_keep,
    lemma_open_message_keeps_id, or_empty, Step, TurnView,
};

verus! {

/// How data is decoded: as a chunk, or not at all.
pub type Decoder = spec_fn(Seq<char>) -> Option<ChunkView>;

/// The bytes of chunks, put together.
pub open spec fn joined(chunks: Seq<Seq<u8>>) -> Seq<u8>
    decreases chunks.len(),
{
    if chunks.len() == 0 {
        Seq::empty()
    } else {
        joined(chunks.drop_last()) + chunks.last()
    }
}

/// Every chunk is text by itself: none of them is cut inside a character.
pub open spec fn all_text(chunks: Seq<Seq<u8>>) -> bool {
    forall|i: int| 0 <= i < chunks.len() ==> valid_utf8(#[trigger] chunks[i])
}

/// The block that no blank line ended, if there is one.
pub open spec fn unended(data: Seq<char>) -> Seq<Seq<char>> {
    match last_block(data) {
        Some(block) => seq![block],
        None => Seq::empty(),
    }
}

/// What comes of the text of a stream from its beginning.
pub open spec fn framed_whole(text: Seq<char>) -> Framed {
    framed(at_hand(new_frame(), text))
}

/// The data blocks in the text of a whole stream.
pub open spec fn blocks_in(text: Seq<char>) -> Seq<Seq<char>> {
    framed_whole(text).blocks + unended(framed_whole(text).kept.data)
}

/// Whether a chunk says why the model stopped.
pub open spec fn says_why(chunk: ChunkView) -> bool {
    chunk.choices matches Some(choices) && exists|i: int|
        0 <= i < choices.len() && or_empty((#[trigger] choices[i]).finish_reason).len() > 0
}

/// No block but the last says why the model stopped.
pub open spec fn only_the_last_says_why(blocks: Seq<Seq<char>>, decode: Decoder) -> bool {
    forall|i: int|
        0 <= i < blocks.len() - 1 ==> !(decode(#[trigger] blocks[i]) matches Some(chunk)
            && says_why(chunk))
}

/// What blocks come to, one after the other, and what is told of it. The message goes by `message`.
pub open spec fn gathered(blocks: Seq<Seq<char>>, decode: Decoder, message: Seq<char>) -> Step
    decreases blocks.len(),
{
    if blocks.len() == 0 {
        Step { turn: empty_turn(), events: Seq::empty() }
    } else {
        let before = gathered(blocks.drop_last(), decode, message);
        match decode(blocks.last()) {
            Some(chunk) => {
                let step = after_chunk(before.turn, chunk, message);
                Step { turn: step.turn, events: before.events + step.events }
            },
            None => before,
        }
    }
}

/// What is told of blocks while a response is under way, from its beginning.
pub open spec fn told_under_way(
    blocks: Seq<Seq<char>>,
    decode: Decoder,
    message: Seq<char>,
) -> Seq<Told> {
    seq![Ok::<EventView, ErrorView>(opening())] + all_told(
        gathered(blocks, decode, message).events,
    )
}

/// All that is told of a response of these blocks, under these identifiers.
pub open spec fn told_of_blocks(
    tools: Map<Seq<char>, KindView>,
    blocks: Seq<Seq<char>>,
    decode: Decoder,
    fresh: Fresh,
) -> Seq<Told> {
    told_under_way(blocks, decode, fresh.message) + all_told(
        final_events(
            gathered(blocks, decode, fresh.message).turn,
            tools,
            fresh.items,
            fresh.response,
        ),
    )
}

/// How many chunks of bytes have been read.
pub open spec fn taken(tools: Map<Seq<char>, KindView>, occasions: Seq<Occasion>) -> nat
    decreases occasions.len(),
{
    if occasions.len() == 0 {
        0
    } else {
        let before = taken(tools, occasions.drop_last());
        if course(tools, occasions.drop_last()).next is Read && occasions.last().input is Bytes {
            before + 1
        } else {
            before
        }
    }
}

/// These are the occasions of a stream of these chunks: where it is read on, the next chunk comes, or
/// the end of the stream behind the last; and where data is to be decoded, it is.
pub open spec fn reads(
    tools: Map<Seq<char>, KindView>,
    occasions: Seq<Occasion>,
    chunks: Seq<Seq<u8>>,
    decode: Decoder,
) -> bool
    decreases occasions.len(),
{
    occasions.len() > 0 ==> {
        let fewer = occasions.drop_last();
        let input = occasions.last().input;
        &&& reads(tools, fewer, chunks, decode)
        &&& match course(tools, fewer).next {
            NextView::Read => if taken(tools, fewer) < chunks.len() {
                input == InputView::Bytes(chunks[taken(tools, fewer) as int])
            } else {
                input is Closed
            },
            NextView::Decode(data) => input == InputView::Decoded(decode(data)),
            NextView::Stop => true,
        }
    }
}

/// Whether the end of the stream has been read.
spec fn closed(tools: Map<Seq<char>, KindView>, occasions: Seq<Occasion>) -> bool
    decreases occasions.len(),
{
    occasions.len() > 0 && (closed(tools, occasions.drop_last()) || course(
        tools,
        occasions.drop_last(),
    ).next is Read && occasions.last().input is Closed)
}

/// The identifiers that a response goes by: for the message the one at hand when it was opened, and
/// for the rest those at hand at the end.
pub open spec fn drawn(tools: Map<Seq<char>, KindView>, occasions: Seq<Occasion>) -> Fresh
    decreases occasions.len(),
{
    if occasions.len() == 0 {
        Fresh { message: Seq::empty(), items: Seq::empty(), response: Seq::empty() }
    } else {
        let before = course(tools, occasions.drop_last());
        let earlier = drawn(tools, occasions.drop_last());
        let last = occasions.last().fresh;
        if before.next is Stop {
            earlier
        } else if before.session.turn.text_id is Some {
            Fresh { message: earlier.message, ..last }
        } else {
            last
        }
    }
}

/// Where the same identifiers are at hand on every occasion, the response goes by them.
pub proof fn law_a_response_goes_by_what_is_at_hand(
    tools: Map<Seq<char>, KindView>,
    occasions: Seq<Occasion>,
    fresh: Fresh,
)
    requires
        occasions.len() > 0,
        forall|i: int| 0 <= i < occasions.len() ==> (#[trigger] occasions[i]).fresh == fresh,
    ensures
        drawn(tools, occasions) == fresh,
    decreases occasions.len(),
{
    let fewer = occasions.drop_last();
    assert(occasions.last() == occasions[occasions.len() - 1]);
    if fewer.len() > 0 {
        assert forall|i: int| 0 <= i < fewer.len() implies (#[trigger] fewer[i]).fresh == fresh by {
            assert(fewer[i] == occasions[i]);
        }
        law_a_response_goes_by_what_is_at_hand(tools, fewer, fresh);
    }
}

/// The bytes of two lists of chunks are those of both.
proof fn lemma_joined(first: Seq<Seq<u8>>, second: Seq<Seq<u8>>)
    ensures
        joined(first + second) == joined(first) + joined(second),
    decreases second.len(),
{
    if second.len() == 0 {
        assert(first + second =~= first);
        assert(joined(first) + joined(second) =~= joined(first));
    } else {
        lemma_joined(first, second.drop_last());
        assert((first + second).drop_last() =~= first + second.drop_last());
        assert(joined(first + second) =~= joined(first) + joined(second));
    }
}

/// Chunks that are text are text together.
proof fn lemma_joined_text(chunks: Seq<Seq<u8>>)
    requires
        all_text(chunks),
    ensures
        valid_utf8(joined(chunks)),
    decreases chunks.len(),
{
    if chunks.len() > 0 {
        let fewer = chunks.drop_last();
        assert forall|i: int| 0 <= i < fewer.len() implies valid_utf8(#[trigger] fewer[i]) by {
            assert(fewer[i] == chunks[i]);
        }
        lemma_joined_text(fewer);
        assert(chunks.last() == chunks[chunks.len() - 1]);
        valid_utf8_concat(joined(fewer), chunks.last());
    }
}

/// The text of the first so many chunks.
spec fn text_of(chunks: Seq<Seq<u8>>, count: nat) -> Seq<char> {
    decode_utf8(joined(chunks.take(count as int)))
}

/// One more chunk adds its text.
proof fn lemma_one_more(chunks: Seq<Seq<u8>>, count: nat)
    requires
        all_text(chunks),
        count < chunks.len(),
    ensures
        text_of(chunks, count + 1) == text_of(chunks, count) + decode_utf8(chunks[count as int]),
{
    let now = chunks.take(count as int);
    let next = chunks.take(count as int + 1);
    assert(next.drop_last() =~= now);
    assert(next.last() == chunks[count as int]);
    assert forall|i: int| 0 <= i < now.len() implies valid_utf8(#[trigger] now[i]) by {
        assert(now[i] == chunks[i]);
    }
    lemma_joined_text(now);
    law_chunks_of_bytes_are_chunks_of_text(joined(now), chunks[count as int]);
}

/// What comes of the first so many chunks is where what comes of all begins.
proof fn lemma_whole(chunks: Seq<Seq<u8>>, count: nat)
    requires
        all_text(chunks),
        count <= chunks.len(),
    ensures
        exists|more: Seq<char>| #[trigger]
            followed_by(
                framed_whole(text_of(chunks, count)),
                framed(at_hand(framed_whole(text_of(chunks, count)).kept, more)),
            ) == framed_whole(decode_utf8(joined(chunks))),
{
    let first = chunks.take(count as int);
    let second = chunks.skip(count as int);
    assert(first + second =~= chunks);
    lemma_joined(first, second);
    assert forall|i: int| 0 <= i < first.len() implies valid_utf8(#[trigger] first[i]) by {
        assert(first[i] == chunks[i]);
    }
    assert forall|i: int| 0 <= i < second.len() implies valid_utf8(#[trigger] second[i]) by {
        assert(second[i] == chunks[i + count]);
    }
    lemma_joined_text(first);
    lemma_joined_text(second);
    law_chunks_of_bytes_are_chunks_of_text(joined(first), joined(second));
    let more = decode_utf8(joined(second));
    law_chunk_boundaries_do_not_matter(new_frame(), text_of(chunks, count), more);
    assert(followed_by(
        framed_whole(text_of(chunks, count)),
        framed(at_hand(framed_whole(text_of(chunks, count)).kept, more)),
    ) == framed_whole(decode_utf8(joined(chunks))));
}

/// Pieces that say nothing of why the model stopped leave it open.
proof fn lemma_last_reason(reason: Option<Seq<char>>, choices: Seq<ChoiceView>)
    requires
        forall|i: int|
            0 <= i < choices.len() ==> or_empty((#[trigger] choices[i]).finish_reason).len() == 0,
    ensures
        last_reason(reason, choices) == reason,
    decreases choices.len(),
{
    if choices.len() > 0 {
        let fewer = choices.drop_last();
        assert(choices.last() == choices[choices.len() - 1]);
        assert forall|i: int| 0 <= i < fewer.len() implies or_empty(
            (#[trigger] fewer[i]).finish_reason,
        ).len() == 0 by {
            assert(fewer[i] == choices[i]);
        }
        lemma_last_reason(reason, fewer);
    }
}

/// Blocks that say nothing of why the model stopped leave it open.
proof fn lemma_no_reason(blocks: Seq<Seq<char>>, decode: Decoder, message: Seq<char>)
    requires
        forall|i: int|
            0 <= i < blocks.len() ==> !(decode(#[trigger] blocks[i]) matches Some(chunk)
                && says_why(chunk)),
    ensures
        gathered(blocks, decode, message).turn.finish_reason is None,
    decreases blocks.len(),
{
    if blocks.len() > 0 {
        let fewer = blocks.drop_last();
        assert(blocks.last() == blocks[blocks.len() - 1]);
        assert forall|i: int| 0 <= i < fewer.len() implies !(decode(#[trigger] fewer[i]) matches Some(
            chunk,
        ) && says_why(chunk)) by {
            assert(fewer[i] == blocks[i]);
        }
        lemma_no_reason(fewer, decode, message);
        if let Some(chunk) = decode(blocks.last()) {
            let before = gathered(fewer, decode, message).turn;
            law_what_is_kept_of_chunks(before, chunk, message);
            if let Some(choices) = chunk.choices {
                lemma_last_reason(before.finish_reason, choices);
            }
        }
    }
}

/// Where no piece of an answer opens the message, no identifier for it matters.
proof fn lemma_choices_silent(
    turn: TurnView,
    choices: Seq<ChoiceView>,
    one: Seq<char>,
    other: Seq<char>,
)
    requires
        after_choices(turn, choices, one).turn.text_id is None,
    ensures
        after_choices(turn, choices, other) == after_choices(turn, choices, one),
        turn.text_id is None,
    decreases choices.len(),
{
    if choices.len() > 0 {
        let before = after_choices(turn, choices.drop_last(), one).turn;
        let choice = choices.last();
        let noted = if or_empty(choice.finish_reason).len() > 0 {
            TurnView { finish_reason: choice.finish_reason, ..before }
        } else {
            before
        };
        if let Some(delta) = choice.delta {
            let told = after_text(noted, or_empty(delta.content), one);
            if let Some(deltas) = delta.tool_calls {
                lemma_call_deltas_keep(told.turn, deltas);
            }
        }
        assert(before.text_id is None);
        lemma_choices_silent(turn, choices.drop_last(), one, other);
        assert(after_choice(before, choice, one) == after_choice(before, choice, other));
    }
}

/// Where no block opens the message, no identifier for it matters.
proof fn lemma_silent(
    blocks: Seq<Seq<char>>,
    decode: Decoder,
    one: Seq<char>,
    other: Seq<char>,
)
    requires
        gathered(blocks, decode, one).turn.text_id is None,
    ensures
        gathered(blocks, decode, other) == gathered(blocks, decode, one),
    decreases blocks.len(),
{
    if blocks.len() > 0 {
        let before = gathered(blocks.drop_last(), decode, one);
        if let Some(chunk) = decode(blocks.last()) {
            let named = if before.turn.stream_id is None {
                TurnView { stream_id: chunk.id, ..before.turn }
            } else {
                before.turn
            };
            if let Some(choices) = chunk.choices {
                lemma_choices_silent(named, choices, one, other);
            }
        }
        lemma_silent(blocks.drop_last(), decode, one, other);
    }
}

/// Who decodes what is asked for answers what is asked for.
proof fn lemma_reads_answers(
    tools: Map<Seq<char>, KindView>,
    occasions: Seq<Occasion>,
    chunks: Seq<Seq<u8>>,
    decode: Decoder,
)
    requires
        reads(tools, occasions, chunks, decode),
    ensures
        all_answer(tools, occasions),
    decreases occasions.len(),
{
    if occasions.len() > 0 {
        lemma_reads_answers(tools, occasions.drop_last(), chunks, decode);
    }
}

/// The data that has been decoded.
spec fn heard(tools: Map<Seq<char>, KindView>, occasions: Seq<Occasion>) -> Seq<Seq<char>> {
    let asked = asked_for(tools, occasions);
    if course(tools, occasions).next is Decode {
        asked.drop_last()
    } else {
        asked
    }
}

/// The blocks that have come of so many chunks, and of the end of the stream.
spec fn blocks_so_far(chunks: Seq<Seq<u8>>, count: nat, closed: bool) -> Seq<Seq<char>> {
    let cut = framed_whole(text_of(chunks, count));
    if closed {
        cut.blocks + unended(cut.kept.data)
    } else {
        cut.blocks
    }
}

/// What is known of the stream after so many chunks, and after its end.
spec fn in_step(
    session: SessionView,
    chunks: Seq<Seq<u8>>,
    count: nat,
    closed: bool,
) -> bool {
    let cut = framed_whole(text_of(chunks, count));
    &&& session.frame == if closed {
        FrameView { data: Seq::empty(), ..cut.kept }
    } else {
        cut.kept
    }
    &&& session.ended == (closed || cut.kept.done)
}

/// When no more is read, all blocks of the stream have come.
proof fn lemma_all_came(
    chunks: Seq<Seq<u8>>,
    count: nat,
    closed: bool,
    decode: Decoder,
    message: Seq<char>,
)
    requires
        all_text(chunks),
        count <= chunks.len(),
        closed ==> count == chunks.len(),
        only_the_last_says_why(blocks_in(decode_utf8(joined(chunks))), decode),
        closed || framed_whole(text_of(chunks, count)).kept.done || gathered(
            blocks_so_far(chunks, count, closed),
            decode,
            message,
        ).turn.finish_reason is Some,
    ensures
        blocks_so_far(chunks, count, closed) == blocks_in(decode_utf8(joined(chunks))),
{
    let text = text_of(chunks, count);
    let cut = framed_whole(text);
    let all = blocks_in(decode_utf8(joined(chunks)));
    if closed {
        assert(chunks.take(count as int) =~= chunks);
    } else {
        lemma_whole(chunks, count);
        let more = choose|more: Seq<char>| #[trigger]
            followed_by(cut, framed(at_hand(cut.kept, more))) == framed_whole(
                decode_utf8(joined(chunks)),
            );
        let rest = framed(at_hand(cut.kept, more));
        assert(all =~= cut.blocks + (rest.blocks + unended(rest.kept.data)));
        if cut.kept.done {
            lemma_done_keeps_nothing(at_hand(new_frame(), text));
            assert(all =~= cut.blocks);
        } else if all.len() > cut.blocks.len() {
            assert forall|i: int| 0 <= i < cut.blocks.len() implies !(decode(
                #[trigger] cut.blocks[i],
            ) matches Some(chunk) && says_why(chunk)) by {
                assert(cut.blocks[i] == all[i]);
            }
            lemma_no_reason(cut.blocks, decode, message);
        } else {
            assert(all =~= cut.blocks);
        }
    }
}

/// What a response is at any time, given what has been read of its chunks.
spec fn as_read(
    tools: Map<Seq<char>, KindView>,
    occasions: Seq<Occasion>,
    chunks: Seq<Seq<u8>>,
    decode: Decoder,
) -> bool {
    let now = course(tools, occasions);
    let count = taken(tools, occasions);
    let at_end = closed(tools, occasions);
    let fresh = drawn(tools, occasions);
    let known = heard(tools, occasions);
    &&& now.session.tools == tools
    &&& count <= chunks.len()
    &&& at_end ==> count == chunks.len()
    &&& if now.next is Stop {
        now.told == told_of_blocks(tools, blocks_in(decode_utf8(joined(chunks))), decode, fresh)
    } else {
        &&& in_step(now.session, chunks, count, at_end)
        &&& came(tools, occasions) == blocks_so_far(chunks, count, at_end)
        &&& now.session.turn == gathered(known, decode, fresh.message).turn
        &&& now.told == told_under_way(known, decode, fresh.message)
    }
}

/// The identifier for the message that is at hand next does as well as the one before.
proof fn lemma_message_at_hand(
    tools: Map<Seq<char>, KindView>,
    occasions: Seq<Occasion>,
    chunks: Seq<Seq<u8>>,
    decode: Decoder,
)
    requires
        occasions.len() > 0,
        as_read(tools, occasions.drop_last(), chunks, decode),
        course(tools, occasions.drop_last()).next !is Stop,
    ensures
        ({
            let before = course(tools, occasions.drop_last());
            let known = heard(tools, occasions.drop_last());
            let message = drawn(tools, occasions).message;
            &&& before.session.turn == gathered(known, decode, message).turn
            &&& before.told == told_under_way(known, decode, message)
        }),
{
    let fewer = occasions.drop_last();
    if course(tools, fewer).session.turn.text_id is None {
        lemma_silent(
            heard(tools, fewer),
            decode,
            drawn(tools, fewer).message,
            drawn(tools, occasions).message,
        );
    }
}

/// So it is after a chunk, and after the end of the stream.
proof fn lemma_read_on(
    tools: Map<Seq<char>, KindView>,
    occasions: Seq<Occasion>,
    chunks: Seq<Seq<u8>>,
    decode: Decoder,
)
    requires
        all_text(chunks),
        occasions.len() > 0,
        reads(tools, occasions, chunks, decode),
        only_the_last_says_why(blocks_in(decode_utf8(joined(chunks))), decode),
        as_read(tools, occasions.drop_last(), chunks, decode),
        course(tools, occasions.drop_last()).next is Read,
    ensures
        as_read(tools, occasions, chunks, decode),
{
    let fewer = occasions.drop_last();
    let before = course(tools, fewer);
    let now = course(tools, occasions);
    let last = occasions.last();
    let session = before.session;
    let message = drawn(tools, occasions).message;
    let known = heard(tools, fewer);
    let count = taken(tools, fewer);
    let cut = framed_whole(text_of(chunks, count));
    lemma_message_at_hand(tools, occasions, chunks, decode);
    lemma_reads_answers(tools, fewer, chunks, decode);
    law_every_block_is_decoded_once(tools, fewer);
    assert(known + session.waiting =~= known);
    if count < chunks.len() {
        let text = decode_utf8(chunks[count as int]);
        let blocks = framed(at_hand(cut.kept, text)).blocks;
        let next = framed_whole(text_of(chunks, count + 1));
        lemma_one_more(chunks, count);
        law_chunk_boundaries_do_not_matter(new_frame(), text_of(chunks, count), text);
        lemma_done_keeps_nothing(at_hand(new_frame(), text_of(chunks, count + 1)));
        let moved = having_read(session, text);
        assert(valid_utf8(chunks[count as int]));
        assert(now.told =~= before.told + advanced(moved, last.fresh).told);
        assert(moved.waiting =~= blocks);
        assert(came(tools, occasions) == known + blocks);
        if blocks.len() > 0 {
            assert(asked_for(tools, occasions) == known.push(blocks.first()));
            assert(heard(tools, occasions) =~= known);
            assert(now.told =~= before.told);
        } else {
            assert(known + blocks =~= known);
            if now.next is Stop {
                lemma_all_came(chunks, count + 1, false, decode, message);
            } else {
                assert(now.next is Read);
                assert(now.told =~= before.told);
            }
        }
    } else {
        assert(last.input is Closed);
        let moved = SessionView { ended: true, ..session };
        assert(now.told =~= before.told + advanced(moved, last.fresh).told);
        match last_block(cut.kept.data) {
            Some(data) => {
                assert(asked_for(tools, occasions) == known.push(data));
                assert(heard(tools, occasions) =~= known);
                assert(now.told =~= before.told);
                assert(known.push(data) =~= known + seq![data]);
            },
            None => {
                assert(known + Seq::<Seq<char>>::empty() =~= known);
                lemma_all_came(chunks, count, true, decode, message);
            },
        }
    }
}

/// So it is after data has been decoded.
proof fn lemma_decoded(
    tools: Map<Seq<char>, KindView>,
    occasions: Seq<Occasion>,
    chunks: Seq<Seq<u8>>,
    decode: Decoder,
)
    requires
        all_text(chunks),
        occasions.len() > 0,
        reads(tools, occasions, chunks, decode),
        only_the_last_says_why(blocks_in(decode_utf8(joined(chunks))), decode),
        as_read(tools, occasions.drop_last(), chunks, decode),
        course(tools, occasions.drop_last()).next is Decode,
    ensures
        as_read(tools, occasions, chunks, decode),
{
    let fewer = occasions.drop_last();
    let before = course(tools, fewer);
    let now = course(tools, occasions);
    let last = occasions.last();
    let session = before.session;
    let message = drawn(tools, occasions).message;
    let known = heard(tools, fewer);
    let data = before.next->0;
    let asked = asked_for(tools, fewer);
    let count = taken(tools, fewer);
    let at_end = closed(tools, fewer);
    lemma_message_at_hand(tools, occasions, chunks, decode);
    lemma_reads_answers(tools, fewer, chunks, decode);
    law_every_block_is_decoded_once(tools, fewer);
    assert(asked.last() == data);
    assert(asked =~= known.push(data));
    assert(asked.drop_last() =~= known);
    let step = gathered(asked, decode, message);
    let moved = SessionView { turn: step.turn, ..session };
    let told = told_under_way(asked, decode, message);
    match decode(data) {
        Some(chunk) => {
            if session.turn.text_id is Some {
                lemma_open_message_keeps_id(session.turn, chunk, last.fresh.message, message);
            }
            assert(told =~= before.told + all_told(
                after_chunk(session.turn, chunk, message).events,
            ));
        },
        None => {
            assert(moved == session);
        },
    }
    let after = advanced(moved, last.fresh);
    assert(now.session == after.session && now.next == after.next);
    assert(now.told =~= told + after.told);
    if session.waiting.len() > 0 {
        assert(heard(tools, occasions) =~= asked);
        assert(now.told =~= told);
    } else {
        assert(asked + session.waiting =~= asked);
        if now.next is Stop {
            lemma_all_came(chunks, count, at_end, decode, message);
        } else {
            assert(now.next is Read);
            assert(now.told =~= told);
        }
    }
}

/// So it is at any time.
proof fn lemma_reading(
    tools: Map<Seq<char>, KindView>,
    occasions: Seq<Occasion>,
    chunks: Seq<Seq<u8>>,
    decode: Decoder,
)
    requires
        all_text(chunks),
        reads(tools, occasions, chunks, decode),
        only_the_last_says_why(blocks_in(decode_utf8(joined(chunks))), decode),
    ensures
        as_read(tools, occasions, chunks, decode),
    decreases occasions.len(),
{
    if occasions.len() == 0 {
        let now = course(tools, occasions);
        assert(chunks.take(0) =~= Seq::<Seq<u8>>::empty());
        assert(text_of(chunks, 0) =~= Seq::<char>::empty());
        lemma_nothing_at_hand();
        assert(now.told =~= told_under_way(Seq::empty(), decode, Seq::empty()));
    } else {
        let fewer = occasions.drop_last();
        lemma_reading(tools, fewer, chunks, decode);
        match course(tools, fewer).next {
            NextView::Read => lemma_read_on(tools, occasions, chunks, decode),
            NextView::Decode(_) => lemma_decoded(tools, occasions, chunks, decode),
            NextView::Stop => {},
        }
    }
}

/// All that is told of a response comes of the data blocks in its text, in their order, and of the
/// identifiers that were drawn. Where the bytes are cut is no part of it, as long as no chunk is cut
/// inside a character and no block but the last says why the model stopped.
pub proof fn law_a_response_is_what_its_text_makes_of_it(
    tools: Map<Seq<char>, KindView>,
    occasions: Seq<Occasion>,
    chunks: Seq<Seq<u8>>,
    decode: Decoder,
)
    requires
        all_text(chunks),
        reads(tools, occasions, chunks, decode),
        only_the_last_says_why(blocks_in(decode_utf8(joined(chunks))), decode),
        course(tools, occasions).next is Stop,
    ensures
        course(tools, occasions).told == told_of_blocks(
            tools,
            blocks_in(decode_utf8(joined(chunks))),
            decode,
            drawn(tools, occasions),
        ),
{
    lemma_reading(tools, occasions, chunks, decode);
}

/// Two streams of the same bytes, however they are cut, are told alike: under the same identifiers,
/// the same is told. What is asked of the cuts is that none is inside a character; and of the bytes,
/// that no block but the last says why the model stopped, as nothing more need be read after that.
pub proof fn law_cuts_do_not_matter(
    tools: Map<Seq<char>, KindView>,
    decode: Decoder,
    one: Seq<Occasion>,
    chunks: Seq<Seq<u8>>,
    other: Seq<Occasion>,
    other_chunks: Seq<Seq<u8>>,
)
    requires
        all_text(chunks),
        all_text(other_chunks),
        joined(chunks) == joined(other_chunks),
        only_the_last_says_why(blocks_in(decode_utf8(joined(chunks))), decode),
        reads(tools, one, chunks, decode),
        reads(tools, other, other_chunks, decode),
        course(tools, one).next is Stop,
        course(tools, other).next is Stop,
        drawn(tools, one) == drawn(tools, other),
    ensures
        course(tools, one).told == course(tools, other).told,
{
    law_a_response_is_what_its_text_makes_of_it(tools, one, chunks, decode);
    law_a_response_is_what_its_text_makes_of_it(tools, other, other_chunks, decode);
}

/// What is still to be read of a stream of chunks, and its end.
pub open spec fn unread(
    tools: Map<Seq<char>, KindView>,
    occasions: Seq<Occasion>,
    chunks: Seq<Seq<u8>>,
) -> int {
    chunks.len() - taken(tools, occasions) + if course(tools, occasions).session.ended {
        0int
    } else {
        1
    }
}

/// Whether there is data that was asked to be decoded, as a number.
pub open spec fn undecoded(next: NextView) -> nat {
    if next is Decode {
        1
    } else {
        0
    }
}

/// No more chunks are read than there are.
proof fn lemma_taken(
    tools: Map<Seq<char>, KindView>,
    occasions: Seq<Occasion>,
    chunks: Seq<Seq<u8>>,
    decode: Decoder,
)
    requires
        reads(tools, occasions, chunks, decode),
    ensures
        taken(tools, occasions) <= chunks.len(),
    decreases occasions.len(),
{
    if occasions.len() > 0 {
        lemma_taken(tools, occasions.drop_last(), chunks, decode);
    }
}

/// Whatever the chunks of a stream are, and however its data is decoded, the reading of it comes to
/// an end: from any point on there are occasions that lead there.
pub proof fn law_every_stream_is_read_to_its_end(
    tools: Map<Seq<char>, KindView>,
    occasions: Seq<Occasion>,
    chunks: Seq<Seq<u8>>,
    decode: Decoder,
    fresh: Fresh,
) -> (whole: Seq<Occasion>)
    requires
        reads(tools, occasions, chunks, decode),
    ensures
        reads(tools, whole, chunks, decode),
        course(tools, whole).next is Stop,
        occasions.is_prefix_of(whole),
        forall|i: int|
            occasions.len() <= i < whole.len() ==> (#[trigger] whole[i]).fresh == fresh,
    decreases
        unread(tools, occasions, chunks),
        left(course(tools, occasions).session),
        undecoded(course(tools, occasions).next),
{
    let now = course(tools, occasions);
    lemma_taken(tools, occasions, chunks, decode);
    law_nothing_is_read_after_done(tools, occasions);
    if now.next is Stop {
        assert(occasions.is_prefix_of(occasions));
        occasions
    } else {
        let count = taken(tools, occasions);
        let input = match now.next {
            NextView::Decode(data) => InputView::Decoded(decode(data)),
            _ => if count < chunks.len() {
                InputView::Bytes(chunks[count as int])
            } else {
                InputView::Closed
            },
        };
        let last = Occasion { input, fresh };
        let longer = occasions.push(last);
        assert(longer.drop_last() =~= occasions);
        assert(reads(tools, longer, chunks, decode));
        lemma_taken(tools, longer, chunks, decode);
        let whole = law_every_stream_is_read_to_its_end(tools, longer, chunks, decode, fresh);
        assert(occasions.is_prefix_of(whole)) by {
            assert(occasions =~= whole.subrange(0, occasions.len() as int));
        }
        assert forall|i: int| occasions.len() <= i < whole.len() implies (
        #[trigger] whole[i]).fresh == fresh by {
            if i == occasions.len() {
                assert(whole[i] == longer[i]);
            }
        }
        whole
    }
}

/// Of nothing, nothing comes.
proof fn lemma_nothing_at_hand()
    ensures
        framed_whole(Seq::empty()) == (Framed { blocks: Seq::empty(), kept: new_frame() }),
{
    let none = Seq::<char>::empty();
    reveal_strlit("\n");
    assert(at_hand(new_frame(), none).line =~= none);
    lemma_split(none, "\n"@);
}

} // verus!
