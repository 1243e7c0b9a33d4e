//! Searching, cutting and joining text.

use chat_completions::text::{
    decimal_text, find, replace, split_once, strip_prefix, strip_suffix, trim, trim_end,
    trim_end_of, trim_start,
};

#[test]
fn positions_are_counted_in_characters() {
    assert_eq!(find("h\u{e9}llo", "l"), Some(2));
    assert_eq!(find("aab", "ab"), Some(1));
    assert_eq!(find("abc", ""), Some(0));
    assert_eq!(find("ab", "abc"), None);
    assert_eq!(find("", "a"), None);
}

#[test]
fn a_text_is_cut_at_the_first_pattern() {
    assert_eq!(split_once("a=b=c", "="), Some(("a", "b=c")));
    assert_eq!(split_once("\u{1f980}::x", "::"), Some(("\u{1f980}", "x")));
    assert_eq!(split_once("abc", "="), None);
}

#[test]
fn both_ends_can_be_stripped() {
    assert_eq!(strip_prefix("data:x", "data:"), Some("x"));
    assert_eq!(strip_prefix("dat", "data:"), None);
    assert_eq!(strip_suffix("x\n", "\n"), Some("x"));
    assert_eq!(strip_suffix("x", "\n"), None);
    assert_eq!(trim_end_of("x\r\r", '\r'), "x");
}

#[test]
fn white_space_is_that_of_unicode() {
    let white = |c: char| {
        matches!(
            c,
            '\u{9}'..='\u{d}'
                | ' '
                | '\u{85}'
                | '\u{a0}'
                | '\u{1680}'
                | '\u{2000}'..='\u{200a}'
                | '\u{2028}'
                | '\u{2029}'
                | '\u{202f}'
                | '\u{205f}'
                | '\u{3000}'
        )
    };
    for c in '\u{0}'..=char::MAX {
        assert_eq!(c.is_whitespace(), white(c), "{c:?}");
    }
    assert_eq!(trim_start("\u{a0}\n a \u{85}"), "a \u{85}");
    assert_eq!(trim_end("\u{a0} a \u{2009}"), "\u{a0} a");
    assert_eq!(trim(" \u{200b} "), "\u{200b}");
    assert_eq!(trim(" \t "), "");
}

#[test]
fn numbers_are_written_in_decimal() {
    for n in [0, 7, 10, 99, 100, 1234567890, usize::MAX] {
        assert_eq!(decimal_text(n), n.to_string());
    }
}

#[test]
fn every_occurrence_is_replaced() {
    assert_eq!(replace("aaa", "aa", "b"), "ba");
    assert_eq!(replace("a.b.c", ".", ".."), "a..b..c");
    assert_eq!(replace("abc", "x", "y"), "abc");
}
