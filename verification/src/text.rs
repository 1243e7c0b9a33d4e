//! Searching, cutting and joining text, over its characters.

use vstd::prelude::*;
use vstd::string::*;

verus! {

/// `pattern` stands in `text` at position `at`.
pub open spec fn occurs_at(text: Seq<char>, pattern: Seq<char>, at: int) -> bool {
    &&& 0 <= at
    &&& at + pattern.len() <= text.len()
    &&& text.subrange(at, at + pattern.len()) == pattern
}

/// `pattern` stands somewhere in `text`.
pub open spec fn occurs(text: Seq<char>, pattern: Seq<char>) -> bool {
    exists|at: int| occurs_at(text, pattern, at)
}

/// `at` is the first position at which `pattern` stands in `text`.
pub open spec fn first_occurs_at(text: Seq<char>, pattern: Seq<char>, at: int) -> bool {
    &&& occurs_at(text, pattern, at)
    &&& forall|before: int| before < at ==> !#[trigger] occurs_at(text, pattern, before)
}

/// The first position of `pattern` in `text`, if it stands there at all.
pub open spec fn position(text: Seq<char>, pattern: Seq<char>) -> Option<int> {
    if occurs(text, pattern) {
        Some(choose|at: int| first_occurs_at(text, pattern, at))
    } else {
        None
    }
}

/// A pattern that stands in a text has a first position there.
pub proof fn lemma_first_exists(text: Seq<char>, pattern: Seq<char>, at: int)
    requires
        occurs_at(text, pattern, at),
    ensures
        exists|first: int| first_occurs_at(text, pattern, first),
    decreases at,
{
    if exists|before: int| before < at && #[trigger] occurs_at(text, pattern, before) {
        let before = choose|before: int| before < at && #[trigger] occurs_at(text, pattern, before);
        lemma_first_exists(text, pattern, before);
    } else {
        assert(first_occurs_at(text, pattern, at));
    }
}

/// `position` is what `first_occurs_at` describes.
pub proof fn lemma_position(text: Seq<char>, pattern: Seq<char>)
    ensures
        match position(text, pattern) {
            Some(at) => first_occurs_at(text, pattern, at),
            None => !occurs(text, pattern),
        },
        forall|at: int| #[trigger]
            first_occurs_at(text, pattern, at) ==> position(text, pattern) == Some(at),
{
    if occurs(text, pattern) {
        let at = choose|at: int| occurs_at(text, pattern, at);
        lemma_first_exists(text, pattern, at);
    }
    assert forall|at: int| #[trigger] first_occurs_at(text, pattern, at) implies position(
        text,
        pattern,
    ) == Some(at) by {
        let found = choose|found: int| first_occurs_at(text, pattern, found);
        assert(first_occurs_at(text, pattern, found));
        assert(!(found < at));
        assert(!(at < found));
    }
}

/// The characters of a text.
pub fn characters(text: &str) -> (r: Vec<char>)
    ensures
        r@ == text@,
{
    let mut r: Vec<char> = Vec::new();
    for c in it: text.chars()
        invariant
            it.seq() == text@,
            r@ == text@.take(it.index() as int),
    {
        r.push(c);
    }
    r
}

/// Whether two texts are the same.
pub fn same(a: &str, b: &str) -> (r: bool)
    ensures
        r == (a@ == b@),
{
    a.to_owned() == b.to_owned()
}

/// The first position of `pattern` in `text`, in characters.
pub fn find(text: &str, pattern: &str) -> (r: Option<usize>)
    ensures
        match (r, position(text@, pattern@)) {
            (Some(at), Some(first)) => at == first,
            (None, None) => true,
            _ => false,
        },
        r matches Some(at) ==> at + pattern@.len() <= text@.len() && first_occurs_at(
            text@,
            pattern@,
            at as int,
        ),
{
    let chars = characters(text);
    let wanted = characters(pattern);
    proof {
        lemma_position(text@, pattern@);
    }
    if wanted.len() > chars.len() {
        return None;
    }
    let last: usize = chars.len() - wanted.len();
    let mut at: usize = 0;
    loop
        invariant
            chars@ == text@,
            wanted@ == pattern@,
            last + wanted.len() == chars.len(),
            at <= last,
            forall|before: int| before < at ==> !#[trigger] occurs_at(text@, pattern@, before),
        decreases last - at,
    {
        let mut matched: usize = 0;
        while matched < wanted.len() && chars[at + matched] == wanted[matched]
            invariant
                last + wanted.len() == chars.len(),
                at <= last,
                matched <= wanted.len(),
                forall|k: int| 0 <= k < matched ==> chars@[at + k] == #[trigger] wanted@[k],
            decreases wanted.len() - matched,
        {
            matched += 1;
        }
        proof {
            lemma_position(text@, pattern@);
        }
        if matched == wanted.len() {
            assert(text@.subrange(at as int, at + pattern@.len()) =~= pattern@);
            assert(first_occurs_at(text@, pattern@, at as int));
            return Some(at);
        }
        assert(!occurs_at(text@, pattern@, at as int)) by {
            if occurs_at(text@, pattern@, at as int) {
                assert(text@.subrange(at as int, at + pattern@.len())[matched as int]
                    == pattern@[matched as int]);
            }
        }
        if at == last {
            return None;
        }
        at += 1;
    }
}

/// The text before the first `pattern` and the text after it.
pub open spec fn split_at_first(text: Seq<char>, pattern: Seq<char>) -> Option<
    (Seq<char>, Seq<char>),
> {
    match position(text, pattern) {
        Some(at) => Some((text.take(at), text.skip(at + pattern.len()))),
        None => None,
    }
}

/// The two sides of the first `pattern`, with it between them, are the text.
pub proof fn lemma_split(text: Seq<char>, pattern: Seq<char>)
    ensures
        split_at_first(text, pattern) matches Some((before, after)) ==> {
            &&& text == before + pattern + after
            &&& text.len() == before.len() + pattern.len() + after.len()
        },
{
    lemma_position(text, pattern);
    if let Some((before, after)) = split_at_first(text, pattern) {
        assert(text =~= before + pattern + after);
    }
}

/// The text from character `from` on.
pub fn tail(text: &str, from: usize) -> (r: &str)
    requires
        from <= text@.len(),
    ensures
        r@ == text@.skip(from as int),
{
    let end: usize = text.unicode_len();
    text.substring_char(from, end)
}

/// Cuts `text` at the first `pattern`, if there is one.
pub fn split_once<'a>(text: &'a str, pattern: &str) -> (r: Option<(&'a str, &'a str)>)
    ensures
        match (r, split_at_first(text@, pattern@)) {
            (Some((before, after)), Some((head, rest))) => before@ == head && after@ == rest,
            (None, None) => true,
            _ => false,
        },
        r matches Some((before, after)) ==> before@.len() + pattern@.len() + after@.len()
            == text@.len(),
{
    let total: usize = text.unicode_len();
    match find(text, pattern) {
        Some(at) => {
            let length: usize = pattern.unicode_len();
            let before = text.substring_char(0, at);
            let after = text.substring_char(at + length, total);
            Some((before, after))
        },
        None => None,
    }
}

/// Whether `text` begins with `prefix`.
pub open spec fn begins_with(text: Seq<char>, prefix: Seq<char>) -> bool {
    occurs_at(text, prefix, 0)
}

/// The text after `prefix`, if `text` begins with it.
pub fn strip_prefix<'a>(text: &'a str, prefix: &str) -> (r: Option<&'a str>)
    ensures
        r is Some == begins_with(text@, prefix@),
        r matches Some(rest) ==> rest@ == text@.skip(prefix@.len() as int),
{
    let total: usize = text.unicode_len();
    let length: usize = prefix.unicode_len();
    if length <= total && same(text.substring_char(0, length), prefix) {
        Some(tail(text, length))
    } else {
        None
    }
}

/// The text before `suffix`, if `text` ends with it.
pub fn strip_suffix<'a>(text: &'a str, suffix: &str) -> (r: Option<&'a str>)
    ensures
        r is Some == occurs_at(text@, suffix@, text@.len() - suffix@.len()),
        r matches Some(rest) ==> rest@ == text@.take(text@.len() - suffix@.len()),
{
    let total: usize = text.unicode_len();
    let length: usize = suffix.unicode_len();
    if length <= total && same(tail(text, total - length), suffix) {
        Some(text.substring_char(0, total - length))
    } else {
        None
    }
}

/// The characters with Unicode's `White_Space` property.
pub open spec fn white_space(c: char) -> bool {
    ||| '\u{9}' <= c <= '\u{d}'
    ||| c == ' '
    ||| c == '\u{85}'
    ||| c == '\u{a0}'
    ||| c == '\u{1680}'
    ||| '\u{2000}' <= c <= '\u{200a}'
    ||| c == '\u{2028}'
    ||| c == '\u{2029}'
    ||| c == '\u{202f}'
    ||| c == '\u{205f}'
    ||| c == '\u{3000}'
}

/// `char::is_whitespace` tells the characters that have Unicode's `White_Space` property; the
/// contract writes out which those are.
pub assume_specification[ char::is_whitespace ](c: char) -> (r: bool)
    ensures
        r == white_space(c),
;

/// `text` without its leading white space.
pub open spec fn trimmed_start(text: Seq<char>) -> Seq<char>
    decreases text.len(),
{
    if text.len() > 0 && white_space(text.first()) {
        trimmed_start(text.drop_first())
    } else {
        text
    }
}

/// `text` without its trailing white space.
pub open spec fn trimmed_end(text: Seq<char>) -> Seq<char>
    decreases text.len(),
{
    if text.len() > 0 && white_space(text.last()) {
        trimmed_end(text.drop_last())
    } else {
        text
    }
}

/// `text` without the white space around it.
pub open spec fn trimmed(text: Seq<char>) -> Seq<char> {
    trimmed_end(trimmed_start(text))
}

/// Removes leading white space.
pub fn trim_start(text: &str) -> (r: &str)
    ensures
        r@ == trimmed_start(text@),
{
    let chars = characters(text);
    let mut from: usize = 0;
    assert(text@.skip(0) =~= text@);
    while from < chars.len() && chars[from].is_whitespace()
        invariant
            chars@ == text@,
            from <= chars.len(),
            trimmed_start(text@) == trimmed_start(text@.skip(from as int)),
        decreases chars.len() - from,
    {
        assert(text@.skip(from as int).drop_first() =~= text@.skip(from + 1));
        from += 1;
    }
    tail(text, from)
}

/// Removes trailing white space.
pub fn trim_end(text: &str) -> (r: &str)
    ensures
        r@ == trimmed_end(text@),
{
    let chars = characters(text);
    let mut to: usize = chars.len();
    assert(text@.take(to as int) =~= text@);
    while to > 0 && chars[to - 1].is_whitespace()
        invariant
            chars@ == text@,
            to <= chars.len(),
            trimmed_end(text@) == trimmed_end(text@.take(to as int)),
        decreases to,
    {
        assert(text@.take(to as int).drop_last() =~= text@.take(to - 1));
        to -= 1;
    }
    text.substring_char(0, to)
}

/// Removes the white space around a text.
pub fn trim(text: &str) -> (r: &str)
    ensures
        r@ == trimmed(text@),
{
    trim_end(trim_start(text))
}

/// `text` without the characters `c` at its end.
pub open spec fn trimmed_end_of(text: Seq<char>, c: char) -> Seq<char>
    decreases text.len(),
{
    if text.len() > 0 && text.last() == c {
        trimmed_end_of(text.drop_last(), c)
    } else {
        text
    }
}

/// Removes the characters `c` at the end of a text.
pub fn trim_end_of(text: &str, c: char) -> (r: &str)
    ensures
        r@ == trimmed_end_of(text@, c),
{
    let chars = characters(text);
    let mut to: usize = chars.len();
    assert(text@.take(to as int) =~= text@);
    while to > 0 && chars[to - 1] == c
        invariant
            chars@ == text@,
            to <= chars.len(),
            trimmed_end_of(text@, c) == trimmed_end_of(text@.take(to as int), c),
        decreases to,
    {
        assert(text@.take(to as int).drop_last() =~= text@.take(to - 1));
        to -= 1;
    }
    text.substring_char(0, to)
}

/// `text` with `by` in the place of each `pattern`, found from left to right.
pub open spec fn replaced(text: Seq<char>, pattern: Seq<char>, by: Seq<char>) -> Seq<char>
    decreases text.len(),
    when pattern.len() > 0
{
    match position(text, pattern) {
        Some(at) => {
            proof {
                lemma_position(text, pattern);
            }
            text.take(at) + by + replaced(text.skip(at + pattern.len()), pattern, by)
        },
        None => text,
    }
}

/// Replaces each `pattern` in `text`.
pub fn replace(text: &str, pattern: &str, by: &str) -> (r: String)
    requires
        pattern@.len() > 0,
    ensures
        r@ == replaced(text@, pattern@, by@),
{
    let mut done = String::new();
    let mut rest = text;
    loop
        invariant
            pattern@.len() > 0,
            replaced(text@, pattern@, by@) == done@ + replaced(rest@, pattern@, by@),
        decreases rest@.len(),
    {
        match split_once(rest, pattern) {
            Some((before, after)) => {
                done.append(before);
                done.append(by);
                rest = after;
            },
            None => {
                done.append(rest);
                return done;
            },
        }
    }
}

/// A number below ten as a digit.
pub open spec fn digit(n: nat) -> char {
    (48 + n) as char
}

/// A number in decimal.
pub open spec fn decimal(n: nat) -> Seq<char>
    decreases n,
{
    if n < 10 {
        seq![digit(n)]
    } else {
        decimal(n / 10).push(digit(n % 10))
    }
}

/// Writes a number below ten.
fn digit_text(n: usize) -> (r: &'static str)
    requires
        n < 10,
    ensures
        r@ == seq![digit(n as nat)],
{
    proof {
        reveal_strlit("0");
        reveal_strlit("1");
        reveal_strlit("2");
        reveal_strlit("3");
        reveal_strlit("4");
        reveal_strlit("5");
        reveal_strlit("6");
        reveal_strlit("7");
        reveal_strlit("8");
        reveal_strlit("9");
    }
    match n {
        0 => "0",
        1 => "1",
        2 => "2",
        3 => "3",
        4 => "4",
        5 => "5",
        6 => "6",
        7 => "7",
        8 => "8",
        _ => "9",
    }
}

/// Writes a number in decimal.
pub fn decimal_text(n: usize) -> (r: String)
    ensures
        r@ == decimal(n as nat),
    decreases n,
{
    if n < 10 {
        digit_text(n).to_owned()
    } else {
        let mut r = decimal_text(n / 10);
        r.append(digit_text(n % 10));
        assert(r@ =~= decimal(n as nat));
        r
    }
}

/// Two texts, one after the other.
pub fn join(first: &str, second: &str) -> (r: String)
    ensures
        r@ == first@ + second@,
{
    let mut r = first.to_owned();
    r.append(second);
    r
}

/// `pattern` closes `before`: where it is put behind it, it does not stand any earlier.
pub open spec fn closes(before: Seq<char>, pattern: Seq<char>) -> bool {
    first_occurs_at(before + pattern, pattern, before.len() as int)
}

/// A text is cut where a pattern closes what stands before it, and only there.
pub proof fn lemma_split_there(before: Seq<char>, pattern: Seq<char>, after: Seq<char>)
    requires
        pattern.len() > 0,
    ensures
        closes(before, pattern) <==> position(before + pattern + after, pattern) == Some(
            before.len() as int,
        ),
        closes(before, pattern) <==> split_at_first(before + pattern + after, pattern) == Some(
            (before, after),
        ),
{
    let short = before + pattern;
    let long = before + pattern + after;
    let at = before.len() as int;
    lemma_position(short, pattern);
    lemma_position(long, pattern);
    assert(short.subrange(at, at + pattern.len()) =~= pattern);
    assert(long.subrange(at, at + pattern.len()) =~= pattern);
    assert(occurs_at(long, pattern, at));
    assert forall|i: int| i <= at implies #[trigger] occurs_at(short, pattern, i) == occurs_at(
        long,
        pattern,
        i,
    ) by {
        if 0 <= i {
            assert(short.subrange(i, i + pattern.len()) =~= long.subrange(i, i + pattern.len()));
        }
    }
    if closes(before, pattern) {
        assert forall|i: int| i < at implies !#[trigger] occurs_at(long, pattern, i) by {
            assert(!occurs_at(short, pattern, i));
        }
        assert(first_occurs_at(long, pattern, at));
    }
    if position(long, pattern) == Some(at) {
        assert(first_occurs_at(long, pattern, at));
        assert forall|i: int| i < at implies !#[trigger] occurs_at(short, pattern, i) by {
            assert(!occurs_at(long, pattern, i));
        }
        assert(closes(before, pattern));
    }
    if position(long, pattern) == Some(at) {
        assert(long.take(at) =~= before);
        assert(long.skip(at + pattern.len()) =~= after);
    }
    if split_at_first(long, pattern) == Some((before, after)) {
        let found = position(long, pattern)->0;
        assert(long.take(found).len() == found);
    }
}

/// A single character closes what it does not occur in.
pub proof fn lemma_char_closes(before: Seq<char>, c: char)
    requires
        !before.contains(c),
    ensures
        closes(before, seq![c]),
{
    let whole = before + seq![c];
    let at = before.len() as int;
    assert(whole.subrange(at, at + 1) =~= seq![c]);
    assert forall|i: int| i < at implies !#[trigger] occurs_at(whole, seq![c], i) by {
        if occurs_at(whole, seq![c], i) {
            assert(whole.subrange(i, i + 1)[0] == c);
            assert(before[i] == c);
        }
    }
}

} // verus!
