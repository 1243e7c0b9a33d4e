//! What searching, cutting and writing text comes to, character by character.

use vstd::prelude::*;

use crate::text::{
    decimal, lemma_position, lemma_split, lemma_split_there, occurs, occurs_at, position, replaced,
    split_at_first, trimmed, trimmed_end, trimmed_end_of, trimmed_start, white_space,
};

verus! {

/// `text` reads `pattern` from the character `at` on.
pub open spec fn stands_at(text: Seq<char>, pattern: Seq<char>, at: int) -> bool {
    &&& 0 <= at
    &&& at + pattern.len() <= text.len()
    &&& forall|i: int| 0 <= i < pattern.len() ==> text[at + i] == #[trigger] pattern[i]
}

/// A pattern stands where the text reads it.
proof fn lemma_stands_at(text: Seq<char>, pattern: Seq<char>, at: int)
    ensures
        stands_at(text, pattern, at) == occurs_at(text, pattern, at),
{
    if occurs_at(text, pattern, at) {
        assert forall|i: int| 0 <= i < pattern.len() implies text[at + i]
            == #[trigger] pattern[i] by {
            assert(text.subrange(at, at + pattern.len())[i] == pattern[i]);
        }
    }
    if stands_at(text, pattern, at) {
        assert(text.subrange(at, at + pattern.len()) =~= pattern);
    }
}

/// A text is cut where it reads the pattern for the first time, and is not cut exactly if it reads
/// it nowhere. The two parts with the pattern between them are the text.
pub proof fn law_texts_are_cut_at_the_first_pattern(text: Seq<char>, pattern: Seq<char>)
    ensures
        match split_at_first(text, pattern) {
            Some((before, after)) => {
                &&& text == before + pattern + after
                &&& forall|i: int|
                    0 <= i < before.len() ==> !#[trigger] stands_at(text, pattern, i)
            },
            None => forall|i: int| !#[trigger] stands_at(text, pattern, i),
        },
        occurs(text, pattern) == (split_at_first(text, pattern) is Some),
{
    lemma_position(text, pattern);
    lemma_split(text, pattern);
    assert forall|i: int| #[trigger] stands_at(text, pattern, i) == occurs_at(text, pattern, i) by {
        lemma_stands_at(text, pattern, i);
    }
}

/// All of a text is white space.
pub open spec fn blank(text: Seq<char>) -> bool {
    forall|i: int| 0 <= i < text.len() ==> white_space(#[trigger] text[i])
}

/// A text neither begins nor ends with white space.
pub open spec fn bare(text: Seq<char>) -> bool {
    text.len() > 0 ==> !white_space(text.first()) && !white_space(text.last())
}

/// What is cut off the beginning is white space, and what is left does not begin with any.
proof fn lemma_trimmed_start(text: Seq<char>) -> (head: Seq<char>)
    ensures
        text == head + trimmed_start(text),
        blank(head),
        trimmed_start(text).len() > 0 ==> !white_space(trimmed_start(text).first()),
    decreases text.len(),
{
    if text.len() > 0 && white_space(text.first()) {
        let rest = lemma_trimmed_start(text.drop_first());
        let head = seq![text.first()] + rest;
        assert(text =~= seq![text.first()] + text.drop_first());
        assert(head + trimmed_start(text) =~= seq![text.first()] + (rest + trimmed_start(text)));
        assert forall|i: int| 0 <= i < head.len() implies white_space(#[trigger] head[i]) by {
            if i > 0 {
                assert(head[i] == rest[i - 1]);
            }
        }
        head
    } else {
        assert(text =~= Seq::<char>::empty() + text);
        Seq::empty()
    }
}

/// What is cut off the end is white space, and what is left does not end with any.
proof fn lemma_trimmed_end(text: Seq<char>) -> (tail: Seq<char>)
    ensures
        text == trimmed_end(text) + tail,
        blank(tail),
        trimmed_end(text).len() > 0 ==> !white_space(trimmed_end(text).last()),
    decreases text.len(),
{
    if text.len() > 0 && white_space(text.last()) {
        let rest = lemma_trimmed_end(text.drop_last());
        let tail = rest.push(text.last());
        assert(text =~= text.drop_last().push(text.last()));
        assert(trimmed_end(text) + tail =~= (trimmed_end(text) + rest).push(text.last()));
        assert forall|i: int| 0 <= i < tail.len() implies white_space(#[trigger] tail[i]) by {
            if i < rest.len() {
                assert(tail[i] == rest[i]);
            }
        }
        tail
    } else {
        assert(text =~= text + Seq::<char>::empty());
        Seq::empty()
    }
}

/// Trimming a text takes the white space off both its ends, all of it, and nothing else.
pub proof fn law_trimming_takes_white_space_off(text: Seq<char>)
    ensures
        exists|head: Seq<char>, tail: Seq<char>|
            blank(head) && blank(tail) && text == #[trigger] (head + trimmed(text) + tail),
        bare(trimmed(text)),
{
    let head = lemma_trimmed_start(text);
    let middle = trimmed_start(text);
    let tail = lemma_trimmed_end(middle);
    assert(text =~= head + trimmed(text) + tail);
    if trimmed(text).len() > 0 {
        assert(trimmed(text).first() == middle.first());
    }
}

/// A text that neither begins nor ends with white space is what trimming makes of it with any white
/// space around it.
pub proof fn law_white_space_around_makes_no_difference(
    head: Seq<char>,
    text: Seq<char>,
    tail: Seq<char>,
)
    requires
        blank(head),
        blank(tail),
        bare(text),
    ensures
        trimmed(head + text + tail) == text,
    decreases head.len() + tail.len(),
{
    let whole = head + text + tail;
    if head.len() > 0 {
        let rest = head.drop_first();
        assert(head[0] == head.first());
        assert(whole.drop_first() =~= rest + text + tail);
        assert forall|i: int| 0 <= i < rest.len() implies white_space(#[trigger] rest[i]) by {
            assert(rest[i] == head[i + 1]);
        }
        law_white_space_around_makes_no_difference(rest, text, tail);
        assert(trimmed_start(whole) == trimmed_start(whole.drop_first()));
    } else if text.len() == 0 {
        lemma_blank(tail);
        assert(whole =~= tail);
    } else {
        assert(whole.first() == text.first());
        assert(trimmed_start(whole) == whole);
        lemma_blank_tail(text, tail);
        assert(whole =~= text + tail);
    }
}

/// Nothing is left of white space.
proof fn lemma_blank(text: Seq<char>)
    requires
        blank(text),
    ensures
        trimmed(text) == Seq::<char>::empty(),
    decreases text.len(),
{
    if text.len() > 0 {
        let rest = text.drop_first();
        assert(text[0] == text.first());
        assert forall|i: int| 0 <= i < rest.len() implies white_space(#[trigger] rest[i]) by {
            assert(rest[i] == text[i + 1]);
        }
        lemma_blank(rest);
    }
}

/// White space behind a text makes no difference.
proof fn lemma_blank_tail(text: Seq<char>, tail: Seq<char>)
    requires
        blank(tail),
        text.len() > 0,
        !white_space(text.last()),
    ensures
        trimmed_end(text + tail) == text,
    decreases tail.len(),
{
    let whole = text + tail;
    if tail.len() > 0 {
        let rest = tail.drop_last();
        assert(tail[tail.len() - 1] == tail.last());
        assert(whole.drop_last() =~= text + rest);
        assert forall|i: int| 0 <= i < rest.len() implies white_space(#[trigger] rest[i]) by {
            assert(rest[i] == tail[i]);
        }
        lemma_blank_tail(text, rest);
    } else {
        assert(whole =~= text);
    }
}

/// Trimming the beginning of a text takes off exactly the white space there.
pub proof fn law_trimming_the_start(head: Seq<char>, text: Seq<char>)
    requires
        blank(head),
        text.len() > 0 ==> !white_space(text.first()),
    ensures
        trimmed_start(head + text) == text,
    decreases head.len(),
{
    let whole = head + text;
    if head.len() > 0 {
        let rest = head.drop_first();
        assert(head[0] == head.first());
        assert(whole.drop_first() =~= rest + text);
        assert forall|i: int| 0 <= i < rest.len() implies white_space(#[trigger] rest[i]) by {
            assert(rest[i] == head[i + 1]);
        }
        law_trimming_the_start(rest, text);
    } else {
        assert(whole =~= text);
    }
}

/// Trimming the end of a text takes off exactly the white space there.
pub proof fn law_trimming_the_end(text: Seq<char>, tail: Seq<char>)
    requires
        blank(tail),
        text.len() > 0 ==> !white_space(text.last()),
    ensures
        trimmed_end(text + tail) == text,
    decreases tail.len(),
{
    let whole = text + tail;
    if tail.len() > 0 {
        let rest = tail.drop_last();
        assert(tail[tail.len() - 1] == tail.last());
        assert(whole.drop_last() =~= text + rest);
        assert forall|i: int| 0 <= i < rest.len() implies white_space(#[trigger] rest[i]) by {
            assert(rest[i] == tail[i]);
        }
        law_trimming_the_end(text, rest);
    } else {
        assert(whole =~= text);
    }
}

/// Trimming one character off the end of a text takes off every one of it there, and nothing else.
pub proof fn law_trimming_one_character(text: Seq<char>, c: char, count: nat)
    requires
        text.len() > 0 ==> text.last() != c,
    ensures
        trimmed_end_of(text + Seq::new(count, |i: int| c), c) == text,
    decreases count,
{
    let whole = text + Seq::new(count, |i: int| c);
    if count > 0 {
        let fewer = (count - 1) as nat;
        assert(whole.drop_last() =~= text + Seq::new(fewer, |i: int| c));
        law_trimming_one_character(text, c, fewer);
    } else {
        assert(whole =~= text);
    }
}

/// A text without the pattern stays as it is.
pub proof fn law_nothing_else_is_replaced(text: Seq<char>, pattern: Seq<char>, by: Seq<char>)
    requires
        pattern.len() > 0,
        forall|i: int| !#[trigger] stands_at(text, pattern, i),
    ensures
        replaced(text, pattern, by) == text,
{
    lemma_position(text, pattern);
    if occurs(text, pattern) {
        let at = choose|at: int| occurs_at(text, pattern, at);
        lemma_stands_at(text, pattern, at);
        assert(stands_at(text, pattern, at));
    }
}

/// The first of a pattern is replaced, what stands before it stays, and behind it it goes on.
pub proof fn law_every_pattern_is_replaced(
    before: Seq<char>,
    pattern: Seq<char>,
    after: Seq<char>,
    by: Seq<char>,
)
    requires
        pattern.len() > 0,
        forall|i: int|
            0 <= i < before.len() ==> !#[trigger] stands_at(before + pattern, pattern, i),
    ensures
        replaced(before + pattern + after, pattern, by) == before + by + replaced(
            after,
            pattern,
            by,
        ),
{
    let short = before + pattern;
    let whole = before + pattern + after;
    let at = before.len() as int;
    assert forall|i: int| i < at implies !#[trigger] occurs_at(short, pattern, i) by {
        lemma_stands_at(short, pattern, i);
        if 0 <= i {
            assert(!stands_at(short, pattern, i));
        }
    }
    assert(short.subrange(at, at + pattern.len()) =~= pattern);
    lemma_split_there(before, pattern, after);
    assert(position(whole, pattern) == Some(at));
    assert(whole.take(at) =~= before);
    assert(whole.skip(at + pattern.len()) =~= after);
}

/// The number that digits stand for.
pub open spec fn number(digits: Seq<char>) -> nat
    decreases digits.len(),
{
    if digits.len() == 0 {
        0
    } else {
        (number(digits.drop_last()) * 10 + (digits.last() as int - '0' as int)) as nat
    }
}

/// A number is written in decimal digits that stand for it, without a leading zero.
pub proof fn law_numbers_are_written_in_decimal(n: nat)
    ensures
        number(decimal(n)) == n,
        decimal(n).len() > 0,
        forall|i: int| 0 <= i < decimal(n).len() ==> '0' <= #[trigger] decimal(n)[i] <= '9',
        decimal(n).len() > 1 ==> decimal(n)[0] != '0',
    decreases n,
{
    reveal_with_fuel(number, 2);
    let all = decimal(n);
    if n < 10 {
        assert(all.drop_last() =~= Seq::<char>::empty());
    } else {
        let fewer = decimal(n / 10);
        law_numbers_are_written_in_decimal(n / 10);
        assert(all.drop_last() =~= fewer);
        assert forall|i: int| 0 <= i < all.len() implies '0' <= #[trigger] all[i] <= '9' by {
            if i < fewer.len() {
                assert(all[i] == fewer[i]);
            }
        }
        assert(all[0] == fewer[0]);
        if fewer.len() == 1 {
            assert(number(fewer) == n / 10);
            assert(fewer.drop_last() =~= Seq::<char>::empty());
            assert(number(fewer.drop_last()) == 0);
        }
    }
}

} // verus!
