//! How a stream is cut into data blocks.

use vstd::prelude::*;
use vstd::utf8::*;

use crate::laws::text::{
    blank, law_trimming_takes_white_space_off, law_trimming_the_start,
    law_white_space_around_makes_no_difference,
};
use crate::sse::{
    after_line, at_hand, done_frame, framed, is_done, last_block, new_frame, FrameView, Framed,
};
use crate::text::{
    begins_with, lemma_char_closes, lemma_split, lemma_split_there, split_at_first, trimmed, trimmed_end,
    trimmed_end_of, trimmed_start, white_space,
};

verus! {

/// What comes of a text and then of another, if both came of one text.
pub open spec fn followed_by(one: Framed, two: Framed) -> Framed {
    Framed { blocks: one.blocks + two.blocks, kept: two.kept }
}

/// It does not matter how a text is cut into chunks: two chunks give the blocks that they give in
/// one piece, and leave the same behind.
pub proof fn law_chunk_boundaries_do_not_matter(
    kept: FrameView,
    first: Seq<char>,
    second: Seq<char>,
)
    ensures
        ({
            let one = framed(at_hand(kept, first));
            framed(at_hand(kept, first + second)) == followed_by(
                one,
                framed(at_hand(one.kept, second)),
            )
        }),
{
    lemma_more_text(at_hand(kept, first), second);
    assert(kept.line + (first + second) =~= (kept.line + first) + second);
}

/// More text behind what is at hand changes nothing of what comes of that.
proof fn lemma_more_text(now: FrameView, more: Seq<char>)
    ensures
        framed(at_hand(now, more)) == followed_by(
            framed(now),
            framed(at_hand(framed(now).kept, more)),
        ),
    decreases now.line.len(),
{
    reveal_strlit("\n");
    lemma_split(now.line, "\n"@);
    let whole = framed(at_hand(now, more));
    let one = framed(now);
    let two = framed(at_hand(one.kept, more));
    match split_at_first(now.line, "\n"@) {
        Some((raw, rest)) if !now.done => {
            lemma_split_there(raw, "\n"@, rest);
            lemma_split_there(raw, "\n"@, rest + more);
            assert(now.line + more =~= raw + "\n"@ + (rest + more));
            let line = trimmed_end_of(raw, '\r');
            if line.len() > 0 {
                let data = after_line(now.data, line);
                lemma_more_text(FrameView { line: rest, data, ..now }, more);
            } else if now.data.len() == 0 {
                lemma_more_text(FrameView { line: rest, ..now }, more);
            } else if is_done(now.data) {
                assert(whole.blocks =~= one.blocks + two.blocks);
            } else {
                let next = FrameView { line: rest, data: Seq::empty(), ..now };
                lemma_more_text(next, more);
                assert(whole.blocks =~= seq![now.data] + (framed(next).blocks + two.blocks));
                assert(whole.blocks =~= one.blocks + two.blocks);
            }
        },
        _ => {
            assert(whole.blocks =~= one.blocks + two.blocks);
        },
    }
}

/// Once it was said that no more will come, nothing is kept.
pub proof fn lemma_done_keeps_nothing(now: FrameView)
    ensures
        framed(now).kept.done ==> framed(now).kept == done_frame(),
    decreases now.line.len(),
{
    reveal_strlit("\n");
    lemma_split(now.line, "\n"@);
    match split_at_first(now.line, "\n"@) {
        Some((raw, rest)) if !now.done => {
            let line = trimmed_end_of(raw, '\r');
            if line.len() > 0 {
                let data = after_line(now.data, line);
                lemma_done_keeps_nothing(FrameView { line: rest, data, ..now });
            } else if now.data.len() == 0 {
                lemma_done_keeps_nothing(FrameView { line: rest, ..now });
            } else if !is_done(now.data) {
                lemma_done_keeps_nothing(FrameView { line: rest, data: Seq::empty(), ..now });
            }
        },
        _ => {},
    }
}

/// Where bytes are cut between characters, the chunks are the two parts of their text.
pub proof fn law_chunks_of_bytes_are_chunks_of_text(first: Seq<u8>, second: Seq<u8>)
    requires
        valid_utf8(first),
        valid_utf8(second),
    ensures
        valid_utf8(first + second),
        decode_utf8(first + second) == decode_utf8(first) + decode_utf8(second),
{
    valid_utf8_concat(first, second);
    decode_utf8_encode_utf8(first);
    decode_utf8_encode_utf8(second);
    lemma_encoded_together(decode_utf8(first), decode_utf8(second));
    encode_utf8_decode_utf8(decode_utf8(first) + decode_utf8(second));
}

/// The bytes of two texts are those of both together.
proof fn lemma_encoded_together(first: Seq<char>, second: Seq<char>)
    ensures
        encode_utf8(first + second) == encode_utf8(first) + encode_utf8(second),
    decreases first.len(),
{
    if first.len() == 0 {
        assert(first + second =~= second);
        assert(encode_utf8(first) + encode_utf8(second) =~= encode_utf8(second));
    } else {
        lemma_encoded_together(first.drop_first(), second);
        assert((first + second).drop_first() =~= first.drop_first() + second);
        assert(encode_utf8(first + second) =~= encode_utf8(first) + encode_utf8(second));
    }
}

/// A text that can stand in one `data:` line: it has no newline, no white space before it, and no
/// carriage return behind it.
pub open spec fn one_line(payload: Seq<char>) -> bool {
    &&& !payload.contains('\n')
    &&& payload.len() > 0 ==> !white_space(payload.first()) && payload.last() != '\r'
}

/// The data of a block with one more line: behind what there is, on a line of its own.
pub open spec fn with_line(data: Seq<char>, line: Seq<char>) -> Seq<char> {
    if data.len() > 0 {
        data + "\n"@ + line
    } else {
        line
    }
}

/// A block, and what comes behind it.
pub open spec fn delivered(block: Seq<char>, behind: Framed) -> Framed {
    Framed { blocks: seq![block] + behind.blocks, kept: behind.kept }
}

/// A `data:` line adds what it carries to the block.
pub proof fn law_data_lines_are_gathered(
    data: Seq<char>,
    payload: Seq<char>,
    rest: Seq<char>,
)
    requires
        one_line(payload),
    ensures
        framed(FrameView { line: "data: "@ + payload + "\n"@ + rest, data, done: false }) == framed(
            FrameView { line: rest, data: with_line(data, payload), done: false },
        ),
{
    reveal_strlit("\n");
    reveal_strlit("data: ");
    reveal_strlit("data:");
    let raw = "data: "@ + payload;
    assert(!raw.contains('\n'));
    lemma_char_closes(raw, '\n');
    assert("\n"@ =~= seq!['\n']);
    lemma_split_there(raw, "\n"@, rest);
    assert(raw.last() != '\r');
    assert(trimmed_end_of(raw, '\r') == raw);
    assert(raw.subrange(0, 5) =~= "data:"@);
    let behind = raw.skip(5);
    assert(behind.drop_first() =~= payload);
    assert(behind.first() == ' ');
    assert(trimmed_start(behind) == payload) by {
        reveal_with_fuel(trimmed_start, 2);
    }
}

/// A blank line ends the block, and it is delivered.
pub proof fn law_blank_lines_end_blocks(data: Seq<char>, rest: Seq<char>)
    requires
        data.len() > 0,
        !is_done(data),
    ensures
        framed(FrameView { line: "\n"@ + rest, data, done: false }) == delivered(
            data,
            framed(FrameView { line: rest, data: Seq::empty(), done: false }),
        ),
{
    lemma_blank_line(rest);
}

/// A blank line is an empty line.
proof fn lemma_blank_line(rest: Seq<char>)
    ensures
        split_at_first("\n"@ + rest, "\n"@) == Some((Seq::<char>::empty(), rest)),
        trimmed_end_of(Seq::<char>::empty(), '\r').len() == 0,
{
    let none = Seq::<char>::empty();
    reveal_strlit("\n");
    lemma_char_closes(none, '\n');
    assert("\n"@ =~= seq!['\n']);
    lemma_split_there(none, "\n"@, rest);
    assert(none + "\n"@ + rest =~= "\n"@ + rest);
}

/// What is sent as one event is delivered as one block.
pub proof fn law_events_are_delivered(payload: Seq<char>, rest: Seq<char>)
    requires
        one_line(payload),
        payload.len() > 0,
        !is_done(payload),
    ensures
        framed(
            FrameView { line: "data: "@ + payload + "\n\n"@ + rest, data: Seq::empty(), done: false },
        ) == delivered(payload, framed(FrameView { line: rest, data: Seq::empty(), done: false })),
{
    reveal_strlit("\n");
    reveal_strlit("\n\n");
    assert("data: "@ + payload + "\n\n"@ + rest =~= "data: "@ + payload + "\n"@ + ("\n"@ + rest));
    law_data_lines_are_gathered(Seq::empty(), payload, "\n"@ + rest);
    law_blank_lines_end_blocks(payload, rest);
}

/// The event that says that no more will come is delivered to nobody, and nothing behind it is
/// read: neither what comes with it, nor what comes later.
pub proof fn law_done_is_not_delivered(rest: Seq<char>)
    ensures
        framed(
            FrameView { line: "data: [DONE]\n\n"@ + rest, data: Seq::empty(), done: false },
        ) == (Framed { blocks: Seq::empty(), kept: done_frame() }),
        forall|later: Seq<char>| #[trigger]
            framed(at_hand(done_frame(), later)) == (Framed {
                blocks: Seq::empty(),
                kept: done_frame(),
            }),
{
    reveal_strlit("\n");
    reveal_strlit("data: ");
    reveal_strlit("[DONE]");
    reveal_strlit("data: [DONE]\n\n");
    let done = "[DONE]"@;
    assert("data: [DONE]\n\n"@ + rest =~= "data: "@ + done + "\n"@ + ("\n"@ + rest));
    assert(one_line(done));
    law_data_lines_are_gathered(Seq::empty(), done, "\n"@ + rest);
    assert(trimmed_start(done) == done);
    assert(trimmed_end(done) == done);
    lemma_blank_line(rest);
}

/// A line that is neither blank nor a `data:` line, such as a comment, is ignored.
pub proof fn law_other_lines_are_ignored(data: Seq<char>, line: Seq<char>, rest: Seq<char>)
    requires
        !line.contains('\n'),
        trimmed_end_of(line, '\r').len() > 0,
        !begins_with(trimmed_end_of(line, '\r'), "data:"@),
    ensures
        framed(FrameView { line: line + "\n"@ + rest, data, done: false }) == framed(
            FrameView { line: rest, data, done: false },
        ),
{
    reveal_strlit("\n");
    lemma_char_closes(line, '\n');
    assert("\n"@ =~= seq!['\n']);
    lemma_split_there(line, "\n"@, rest);
}

/// A carriage return before a newline makes no difference.
pub proof fn law_carriage_returns_make_no_difference(
    data: Seq<char>,
    line: Seq<char>,
    rest: Seq<char>,
)
    requires
        !line.contains('\n'),
    ensures
        framed(FrameView { line: line + "\r\n"@ + rest, data, done: false }) == framed(
            FrameView { line: line + "\n"@ + rest, data, done: false },
        ),
{
    reveal_strlit("\n");
    reveal_strlit("\r\n");
    let long = line.push('\r');
    assert("\n"@ =~= seq!['\n']);
    assert(line + "\r\n"@ + rest =~= long + "\n"@ + rest);
    assert(!long.contains('\n'));
    lemma_char_closes(line, '\n');
    lemma_char_closes(long, '\n');
    lemma_split_there(line, "\n"@, rest);
    lemma_split_there(long, "\n"@, rest);
    assert(long.drop_last() =~= line);
    assert(trimmed_end_of(long, '\r') == trimmed_end_of(line, '\r'));
}

/// White space between `data:` and what the line carries makes no difference, be it none or more
/// than one character.
pub proof fn law_white_space_before_data_is_dropped(
    data: Seq<char>,
    space: Seq<char>,
    payload: Seq<char>,
    rest: Seq<char>,
)
    requires
        blank(space),
        !space.contains('\n'),
        payload.len() == 0 ==> space.len() == 0 || space.last() != '\r',
        one_line(payload),
    ensures
        framed(FrameView { line: "data:"@ + space + payload + "\n"@ + rest, data, done: false })
            == framed(FrameView { line: rest, data: with_line(data, payload), done: false }),
{
    reveal_strlit("\n");
    reveal_strlit("data:");
    let raw = "data:"@ + space + payload;
    assert(!raw.contains('\n')) by {
        if raw.contains('\n') {
            let i = choose|i: int| 0 <= i < raw.len() && raw[i] == '\n';
            if i >= 5 && i < 5 + space.len() {
                assert(space[i - 5] == '\n');
            } else if i >= 5 {
                assert(payload[i - 5 - space.len()] == '\n');
            }
        }
    }
    lemma_char_closes(raw, '\n');
    assert("\n"@ =~= seq!['\n']);
    lemma_split_there(raw, "\n"@, rest);
    assert(raw.last() != '\r');
    assert(trimmed_end_of(raw, '\r') == raw);
    assert(raw.subrange(0, 5) =~= "data:"@);
    assert(raw.skip(5) =~= space + payload);
    law_trimming_the_start(space, payload);
}

/// A line that is not yet ended is kept as it is, and gives nothing.
pub proof fn law_unended_lines_are_kept(line: Seq<char>, data: Seq<char>)
    requires
        !line.contains('\n'),
    ensures
        framed(FrameView { line, data, done: false }) == (Framed {
            blocks: Seq::empty(),
            kept: FrameView { line, data, done: false },
        }),
{
    reveal_strlit("\n");
    lemma_split(line, "\n"@);
    if let Some((before, after)) = split_at_first(line, "\n"@) {
        assert(line[before.len() as int] == '\n');
    }
}

/// A blank line where there is no data gives nothing, and ends nothing.
pub proof fn law_blank_lines_without_data_are_ignored(rest: Seq<char>)
    ensures
        framed(FrameView { line: "\n"@ + rest, data: Seq::empty(), done: false }) == framed(
            FrameView { line: rest, data: Seq::empty(), done: false },
        ),
{
    lemma_blank_line(rest);
}

/// A blank line behind the data that says that no more will come ends the reading.
pub proof fn law_a_blank_line_ends_the_reading(data: Seq<char>, rest: Seq<char>)
    requires
        data.len() > 0,
        is_done(data),
    ensures
        framed(FrameView { line: "\n"@ + rest, data, done: false }) == (Framed {
            blocks: Seq::empty(),
            kept: FrameView { line: Seq::empty(), data: Seq::empty(), done: true },
        }),
{
    lemma_blank_line(rest);
}

/// The data that says that no more will come is `[DONE]`, with white space around it or without, and
/// no other.
pub proof fn law_what_says_that_no_more_will_come(data: Seq<char>)
    ensures
        is_done(data) <==> exists|head: Seq<char>, tail: Seq<char>|
            blank(head) && blank(tail) && data == #[trigger] (head + "[DONE]"@ + tail),
{
    reveal_strlit("[DONE]");
    if is_done(data) {
        law_trimming_takes_white_space_off(data);
        let (head, tail) = choose|head: Seq<char>, tail: Seq<char>|
            blank(head) && blank(tail) && data == #[trigger] (head + trimmed(data) + tail);
        assert(data == head + "[DONE]"@ + tail);
    }
    if exists|head: Seq<char>, tail: Seq<char>|
        blank(head) && blank(tail) && data == #[trigger] (head + "[DONE]"@ + tail) {
        let (head, tail) = choose|head: Seq<char>, tail: Seq<char>|
            blank(head) && blank(tail) && data == #[trigger] (head + "[DONE]"@ + tail);
        law_white_space_around_makes_no_difference(head, "[DONE]"@, tail);
    }
}

/// At the end of the stream, data that no blank line ended is a block like any other, unless it says
/// that no more will come.
pub proof fn law_the_last_block_needs_no_blank_line(data: Seq<char>)
    ensures
        last_block(data) == if data.len() > 0 && !is_done(data) {
            Some(data)
        } else {
            None
        },
{
}

/// A chunk adds its text behind what was kept of the line, and changes nothing else.
pub proof fn law_chunks_go_behind_what_was_kept(kept: FrameView, text: Seq<char>)
    ensures
        at_hand(kept, text) == (FrameView {
            line: kept.line + text,
            data: kept.data,
            done: kept.done,
        }),
        new_frame() == (FrameView { line: Seq::empty(), data: Seq::empty(), done: false }),
{
}

} // verus!
