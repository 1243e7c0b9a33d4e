//! Server-sent events: cutting a byte stream into the data blocks that it carries.

use vstd::prelude::*;
use vstd::string::*;
use vstd::utf8::*;

use crate::error::{ApiError, ErrorView};
use crate::text::{
    begins_with, join, lemma_split, same, split_at_first, split_once, strip_prefix, trim, trim_end_of,
    trim_start, trimmed, trimmed_end_of, trimmed_start,
};

verus! {

/// How `std` describes what keeps a sequence of bytes from being UTF-8.
pub uninterp spec fn utf8_fault(bytes: Seq<u8>) -> Seq<char>;

/// `std::str::from_utf8`, which takes bytes as text where they are UTF-8, and else describes what
/// is wrong with them. Nothing but the bytes decides the description.
#[verifier::external_body]
fn decode(bytes: &[u8]) -> (r: Result<String, String>)
    ensures
        r is Ok == valid_utf8(bytes@),
        r matches Ok(text) ==> text@ == decode_utf8(bytes@),
        r matches Err(fault) ==> fault@ == utf8_fault(bytes@),
{
    match std::str::from_utf8(bytes) {
        Ok(text) => Ok(text.to_owned()),
        Err(fault) => Err(fault.to_string()),
    }
}

/// What is kept between two chunks of a stream.
pub struct FrameView {
    /// The text after the last newline.
    pub line: Seq<char>,
    /// The data of the block that is not yet ended.
    pub data: Seq<char>,
    /// Whether it was said that no more will come.
    pub done: bool,
}

/// Before the first chunk.
pub open spec fn new_frame() -> FrameView {
    FrameView { line: Seq::empty(), data: Seq::empty(), done: false }
}

/// Once it was said that no more will come: nothing is kept.
pub open spec fn done_frame() -> FrameView {
    FrameView { line: Seq::empty(), data: Seq::empty(), done: true }
}

/// What comes of a text: the data blocks that are ended in it, and what is kept.
pub struct Framed {
    pub blocks: Seq<Seq<char>>,
    pub kept: FrameView,
}

/// The block that says that no more will come.
pub open spec fn is_done(data: Seq<char>) -> bool {
    trimmed(data) == "[DONE]"@
}

/// A block with one more line of data.
pub open spec fn with_data_line(data: Seq<char>, line: Seq<char>) -> Seq<char> {
    if data.len() > 0 {
        data + "\n"@ + line
    } else {
        line
    }
}

/// The data of the block after a line that is not blank: a `data:` line adds to it, any other line
/// is ignored.
pub open spec fn after_line(data: Seq<char>, line: Seq<char>) -> Seq<char> {
    if begins_with(line, "data:"@) {
        with_data_line(data, trimmed_start(line.skip("data:"@.len() as int)))
    } else {
        data
    }
}

/// `framed` with one more block at its beginning.
pub open spec fn with_block(block: Seq<char>, framed: Framed) -> Framed {
    Framed { blocks: seq![block] + framed.blocks, kept: framed.kept }
}

/// What comes of the complete lines that are at hand. A blank line ends a block; the block that
/// says that no more will come is dropped, and nothing behind it is read.
pub open spec fn framed(at_hand: FrameView) -> Framed
    decreases at_hand.line.len(),
{
    proof {
        reveal_strlit("\n");
        lemma_split(at_hand.line, "\n"@);
    }
    if at_hand.done {
        Framed { blocks: Seq::empty(), kept: done_frame() }
    } else {
        match split_at_first(at_hand.line, "\n"@) {
            Some((raw, rest)) => {
                let line = trimmed_end_of(raw, '\r');
                if line.len() > 0 {
                    framed(
                        FrameView { line: rest, data: after_line(at_hand.data, line), ..at_hand },
                    )
                } else if at_hand.data.len() == 0 {
                    framed(FrameView { line: rest, ..at_hand })
                } else if is_done(at_hand.data) {
                    Framed { blocks: Seq::empty(), kept: done_frame() }
                } else {
                    with_block(
                        at_hand.data,
                        framed(FrameView { line: rest, data: Seq::empty(), ..at_hand }),
                    )
                }
            },
            None => Framed { blocks: Seq::empty(), kept: at_hand },
        }
    }
}

/// What a text adds to what was kept.
pub open spec fn at_hand(kept: FrameView, text: Seq<char>) -> FrameView {
    FrameView { line: kept.line + text, ..kept }
}

/// Cuts a stream of bytes into data blocks.
#[derive(Debug)]
pub struct SseFramer {
    line: String,
    data: String,
    done: bool,
}

impl View for SseFramer {
    type V = FrameView;

    closed spec fn view(&self) -> FrameView {
        FrameView { line: self.line@, data: self.data@, done: self.done }
    }
}

/// What a block at the end of the stream, which no blank line ended, amounts to.
pub open spec fn last_block(data: Seq<char>) -> Option<Seq<char>> {
    if data.len() > 0 && !is_done(data) {
        Some(data)
    } else {
        None
    }
}

impl SseFramer {
    /// Before the first chunk.
    pub fn new() -> (r: SseFramer)
        ensures
            r@ == new_frame(),
    {
        SseFramer { line: String::new(), data: String::new(), done: false }
    }

    /// Whether nothing is kept.
    pub fn is_empty(&self) -> (r: bool)
        ensures
            r == (self@.line.len() == 0 && self@.data.len() == 0),
    {
        self.line.as_str().is_empty() && self.data.as_str().is_empty()
    }

    /// Whether it was said that no more will come.
    pub fn is_done(&self) -> (r: bool)
        ensures
            r == self@.done,
    {
        self.done
    }

    /// Takes the text of a chunk, and gives the data blocks that are ended in it. Nothing is taken
    /// once it was said that no more will come.
    pub fn feed_text(&mut self, text: &str) -> (r: Vec<String>)
        ensures
            r.deep_view() == framed(at_hand(old(self)@, text@)).blocks,
            final(self)@ == framed(at_hand(old(self)@, text@)).kept,
    {
        let mut blocks: Vec<String> = Vec::new();
        if self.done {
            self.line = String::new();
            self.data = String::new();
            assert(blocks.deep_view() =~= Seq::<Seq<char>>::empty());
            return blocks;
        }
        self.line.append(text);
        let ghost all = framed(self@);
        proof {
            reveal_strlit("\n");
            assert(blocks.deep_view() + framed(self@).blocks =~= all.blocks);
        }
        loop
            invariant_except_break
                "\n"@.len() == 1,
                !self.done,
                all.blocks == blocks.deep_view() + framed(self@).blocks,
                all.kept == framed(self@).kept,
            ensures
                all.blocks == blocks.deep_view(),
                all.kept == self@,
            decreases self@.line.len(),
        {
            let ghost before = self@;
            let (line, rest) = match split_once(self.line.as_str(), "\n") {
                Some((raw, rest)) => (trim_end_of(raw, '\r').to_owned(), rest.to_owned()),
                None => {
                    assert(blocks.deep_view() + Seq::<Seq<char>>::empty() =~= blocks.deep_view());
                    break;
                },
            };
            self.line = rest;
            if !line.as_str().is_empty() {
                if let Some(payload) = strip_prefix(line.as_str(), "data:") {
                    let payload = trim_start(payload);
                    if !self.data.as_str().is_empty() {
                        self.data.append("\n");
                    }
                    self.data.append(payload);
                    assert(self.data@ =~= after_line(before.data, line@));
                }
            } else if !self.data.as_str().is_empty() {
                let block = self.data.clone();
                self.data = String::new();
                if same(trim(block.as_str()), "[DONE]") {
                    self.line = String::new();
                    self.done = true;
                    assert(blocks.deep_view() + Seq::<Seq<char>>::empty() =~= blocks.deep_view());
                    break;
                }
                let ghost gathered = blocks.deep_view();
                blocks.push(block);
                proof {
                    let rest = framed(self@).blocks;
                    assert(blocks.deep_view() =~= gathered.push(block@));
                    assert(gathered.push(block@) + rest =~= gathered + (seq![block@] + rest));
                }
            }
        }
        blocks
    }

    /// Takes a chunk of bytes, and gives the data blocks that are ended in it. Bytes that are not
    /// UTF-8 are a fault, and nothing is taken.
    pub fn feed(&mut self, bytes: &[u8]) -> (r: Result<Vec<String>, ApiError>)
        ensures
            if valid_utf8(bytes@) {
                let now = framed(at_hand(old(self)@, decode_utf8(bytes@)));
                &&& r matches Ok(blocks) && blocks.deep_view() == now.blocks
                &&& final(self)@ == now.kept
            } else {
                &&& r matches Err(fault) && fault.deep_view() == ErrorView::Stream(
                    "UTF-8 error: "@ + utf8_fault(bytes@),
                )
                &&& final(self)@ == old(self)@
            },
    {
        match decode(bytes) {
            Ok(text) => Ok(self.feed_text(text.as_str())),
            Err(fault) => Err(ApiError::Stream(join("UTF-8 error: ", fault.as_str()))),
        }
    }

    /// Takes the block that no blank line ended.
    pub fn take_last_block(&mut self) -> (r: Option<String>)
        ensures
            r.deep_view() == last_block(old(self)@.data),
            final(self)@ == (FrameView { data: Seq::empty(), ..old(self)@ }),
    {
        let block = self.data.clone();
        self.data = String::new();
        if block.as_str().is_empty() || same(trim(block.as_str()), "[DONE]") {
            None
        } else {
            Some(block)
        }
    }
}

} // verus!
