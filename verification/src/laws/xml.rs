//! How calls are read out of a text.

use vstd::prelude::*;

use crate::json::{read, reads_as, written, JsonView};
use crate::laws::endings::law_calls_are_told_whole;
use crate::laws::text::{
    blank, law_texts_are_cut_at_the_first_pattern, law_white_space_around_makes_no_difference,
    stands_at,
};
use crate::protocol::{EventView, ItemView};
use crate::response::{
    custom_input, fallback_calls, text_events, xml_call_id, xml_call_ids, xml_call_views,
};
use crate::text::{
    closes, decimal, first_occurs_at, lemma_char_closes, lemma_position, lemma_split, lemma_split_there,
    occurs, occurs_at, position, split_at_first, trimmed, white_space,
};
use crate::tool_map::KindView;
use crate::turn::{CallView, TurnView};
use crate::xml_calls::{
    all_read_back, bare_value, calls, parameters, parameters_onto, XmlCall,
};

verus! {

/// A text without an opening tag makes no calls.
pub proof fn law_plain_text_makes_no_calls(text: Seq<char>)
    requires
        !occurs(text, "<function="@),
    ensures
        calls(text) == Seq::<XmlCall>::empty(),
{
}

/// `pattern` begins nowhere in `before`, as it stands before `text`.
pub open spec fn does_not_begin_in(
    before: Seq<char>,
    text: Seq<char>,
    pattern: Seq<char>,
) -> bool {
    forall|i: int| i < before.len() ==> !#[trigger] occurs_at(before + text, pattern, i)
}

/// What stands before the first of a pattern makes no difference to what stands behind it.
proof fn lemma_split_behind(before: Seq<char>, text: Seq<char>, pattern: Seq<char>)
    requires
        pattern.len() > 0,
        does_not_begin_in(before, text, pattern),
    ensures
        match (split_at_first(before + text, pattern), split_at_first(text, pattern)) {
            (Some((head, rest)), Some((short, same))) => head == before + short && rest == same,
            (None, None) => true,
            _ => false,
        },
{
    let whole = before + text;
    let shift = before.len() as int;
    lemma_position(whole, pattern);
    lemma_position(text, pattern);
    assert forall|i: int| #[trigger] occurs_at(text, pattern, i) implies occurs_at(
        whole,
        pattern,
        i + shift,
    ) by {
        assert(whole.subrange(i + shift, i + shift + pattern.len()) =~= text.subrange(
            i,
            i + pattern.len(),
        ));
    }
    assert forall|i: int| #[trigger] occurs_at(whole, pattern, i) implies i >= shift && occurs_at(
        text,
        pattern,
        i - shift,
    ) by {
        assert(whole.subrange(i, i + pattern.len()) =~= text.subrange(
            i - shift,
            i - shift + pattern.len(),
        ));
    }
    match position(text, pattern) {
        Some(at) => {
            assert(occurs_at(whole, pattern, at + shift));
            assert forall|i: int| i < at + shift implies !#[trigger] occurs_at(
                whole,
                pattern,
                i,
            ) by {
                if occurs_at(whole, pattern, i) {
                    assert(occurs_at(text, pattern, i - shift));
                }
            }
            assert(first_occurs_at(whole, pattern, at + shift));
            assert(whole.take(at + shift) =~= before + text.take(at));
            assert(whole.skip(at + shift + pattern.len()) =~= text.skip(at + pattern.len()));
        },
        None => {
            if occurs(whole, pattern) {
                let i = choose|i: int| occurs_at(whole, pattern, i);
                assert(occurs_at(text, pattern, i - shift));
            }
        },
    }
}

/// Prose before the first call is ignored.
pub proof fn law_prose_is_ignored(prose: Seq<char>, text: Seq<char>)
    requires
        does_not_begin_in(prose, text, "<function="@),
    ensures
        calls(prose + text) == calls(text),
{
    reveal_strlit("<function=");
    lemma_split_behind(prose, text, "<function="@);
    if let Some((before, _)) = split_at_first(text, "<function="@) {
        let whole = prose + text;
        lemma_split(text, "<function="@);
        assert(whole.skip((prose + before).len() as int + 1) =~= text.skip(before.len() as int + 1));
    }
}

/// Text before the first parameter of a call is ignored.
pub proof fn law_text_between_parameters_is_ignored(
    found: Map<Seq<char>, JsonView>,
    between: Seq<char>,
    body: Seq<char>,
)
    requires
        does_not_begin_in(between, body, "<parameter="@),
    ensures
        parameters_onto(found, between + body) == parameters_onto(found, body),
{
    reveal_strlit("<parameter=");
    lemma_split_behind(between, body, "<parameter="@);
}

/// A tag at the beginning of a text is its first.
proof fn lemma_tag_first(tag: Seq<char>, after: Seq<char>)
    requires
        tag.len() > 0,
    ensures
        split_at_first(tag + after, tag) == Some((Seq::<char>::empty(), after)),
{
    let none = Seq::<char>::empty();
    assert(none + tag =~= tag);
    assert(tag.subrange(0, tag.len() as int) =~= tag);
    assert(closes(none, tag));
    lemma_split_there(none, tag, after);
    assert(none + tag + after =~= tag + after);
}

/// A name ends at the first `>`.
proof fn lemma_name_ends(name: Seq<char>, after: Seq<char>)
    requires
        !name.contains('>'),
    ensures
        split_at_first(name + ">"@ + after, ">"@) == Some((name, after)),
{
    reveal_strlit(">");
    assert(">"@ =~= seq!['>']);
    lemma_char_closes(name, '>');
    lemma_split_there(name, ">"@, after);
}

/// A call at the beginning of a text is read, with its name and its parameters, and the calls
/// behind it after it.
pub proof fn law_calls_are_read(name: Seq<char>, body: Seq<char>, rest: Seq<char>)
    requires
        !name.contains('>'),
        trimmed(name).len() > 0,
        closes(body, "</function>"@),
    ensures
        calls("<function="@ + name + ">"@ + body + "</function>"@ + rest) == seq![
            XmlCall { name: trimmed(name), parameters: parameters(body) },
        ] + calls(rest),
{
    reveal_strlit("<function=");
    reveal_strlit("</function>");
    let text = "<function="@ + name + ">"@ + body + "</function>"@ + rest;
    let named = body + "</function>"@ + rest;
    let opened = name + ">"@ + named;
    assert(text =~= "<function="@ + opened);
    lemma_tag_first("<function="@, opened);
    lemma_name_ends(name, named);
    lemma_split_there(body, "</function>"@, rest);
}

/// A call that is not closed does not count, nor does anything behind it.
pub proof fn law_unclosed_calls_do_not_count(name: Seq<char>, body: Seq<char>)
    requires
        !name.contains('>'),
        trimmed(name).len() > 0,
        !occurs(body, "</function>"@),
    ensures
        calls("<function="@ + name + ">"@ + body) == Seq::<XmlCall>::empty(),
{
    reveal_strlit("<function=");
    let text = "<function="@ + name + ">"@ + body;
    let opened = name + ">"@ + body;
    assert(text =~= "<function="@ + opened);
    lemma_tag_first("<function="@, opened);
    lemma_name_ends(name, body);
}

/// A parameter at the beginning of a body is read, and the parameters behind it after it.
pub proof fn law_parameters_are_read(
    found: Map<Seq<char>, JsonView>,
    name: Seq<char>,
    value: Seq<char>,
    rest: Seq<char>,
)
    requires
        !name.contains('>'),
        trimmed(name).len() > 0,
        closes(value, "</parameter>"@),
    ensures
        parameters_onto(
            found,
            "<parameter="@ + name + ">"@ + value + "</parameter>"@ + rest,
        ) == parameters_onto(
            found.insert(trimmed(name), JsonView::String(bare_value(value))),
            rest,
        ),
{
    reveal_strlit("<parameter=");
    reveal_strlit("</parameter>");
    let body = "<parameter="@ + name + ">"@ + value + "</parameter>"@ + rest;
    let named = value + "</parameter>"@ + rest;
    let opened = name + ">"@ + named;
    assert(body =~= "<parameter="@ + opened);
    lemma_tag_first("<parameter="@, opened);
    lemma_name_ends(name, named);
    lemma_split_there(value, "</parameter>"@, rest);
}

/// The value of a parameter that stands on lines of its own is kept as it is, to the last
/// character.
pub proof fn law_values_are_kept(value: Seq<char>)
    ensures
        bare_value("\n"@ + value + "\n"@) == value,
{
    reveal_strlit("\n");
    let raw = "\n"@ + value + "\n"@;
    let head = value + "\n"@;
    assert(raw.subrange(0, 1) =~= "\n"@);
    assert(raw.skip(1) =~= head);
    assert(head.subrange(head.len() - 1, head.len() as int) =~= "\n"@);
    assert(head.take(head.len() - 1) =~= value);
}

/// A value that has no newline around it is kept as it is.
pub proof fn law_bare_values_are_kept(value: Seq<char>)
    requires
        value.len() > 0 ==> value.first() != '\n' && value.last() != '\n',
    ensures
        bare_value(value) == value,
{
    reveal_strlit("\n");
    if occurs_at(value, "\n"@, 0) {
        assert(value.subrange(0, 1)[0] == '\n');
    }
    if occurs_at(value, "\n"@, value.len() - 1) {
        assert(value.subrange(value.len() - 1, value.len() as int)[0] == '\n');
    }
}

/// What a call in the text passes as `input` is the input of a custom tool.
pub proof fn law_written_input_is_the_input(call: XmlCall, input: Seq<char>)
    requires
        reads_as(call.arguments(), call.object()),
        call.parameters.contains_pair("input"@, JsonView::String(input)),
    ensures
        custom_input(read(call.arguments()), call.arguments()) == input,
{
}

/// Where the calls in the text of a response are told, one of a custom tool is told as a call of that
/// tool, with the input that is written there.
pub proof fn law_written_input_reaches_the_tool(
    turn: TurnView,
    tools: Map<Seq<char>, KindView>,
    at: int,
    input: Seq<char>,
)
    requires
        0 <= at < fallback_calls(turn).len(),
        all_read_back(fallback_calls(turn)),
        tools.contains_pair(fallback_calls(turn)[at].name, KindView::Custom),
        fallback_calls(turn)[at].parameters.contains_pair("input"@, JsonView::String(input)),
    ensures
        ({
            let found = fallback_calls(turn);
            let item = ItemView::CustomToolCall {
                id: Some(xml_call_id(at as nat)),
                status: None,
                call_id: xml_call_id(at as nat),
                name: found[at].name,
                namespace: None,
                input,
                internal_chat_message_metadata_passthrough: None,
            };
            &&& text_events(turn, tools)[2 * at] == EventView::OutputItemAdded(item)
            &&& text_events(turn, tools)[2 * at + 1] == EventView::OutputItemDone(item)
        }),
{
    let found = fallback_calls(turn);
    let views = xml_call_views(found);
    law_calls_are_told_whole(tools, views, xml_call_ids(found));
    assert(views[at].arguments == found[at].arguments());
    assert(reads_as(found[at].arguments(), found[at].object()));
    law_written_input_is_the_input(found[at], input);
}

/// A text reads a pattern nowhere.
pub open spec fn absent(text: Seq<char>, pattern: Seq<char>) -> bool {
    forall|i: int| !#[trigger] stands_at(text, pattern, i)
}

/// The first character of a pattern does not come again in it.
spec fn begins_once(pattern: Seq<char>) -> bool {
    &&& pattern.len() > 0
    &&& forall|j: int| 0 < j < pattern.len() ==> #[trigger] pattern[j] != pattern[0]
}

/// The tags begin once.
proof fn lemma_tags_begin_once()
    ensures
        begins_once("<function="@),
        begins_once("</function>"@),
        begins_once("<parameter="@),
        begins_once("</parameter>"@),
{
    reveal_strlit("<function=");
    reveal_strlit("</function>");
    reveal_strlit("<parameter=");
    reveal_strlit("</parameter>");
}

/// Behind a text that reads it nowhere, a tag is the first of its kind.
proof fn lemma_absent(before: Seq<char>, pattern: Seq<char>, after: Seq<char>)
    requires
        absent(before, pattern),
        begins_once(pattern),
    ensures
        closes(before, pattern),
        does_not_begin_in(before, pattern + after, pattern),
{
    let whole = before + (pattern + after);
    let short = before + pattern;
    let at = before.len() as int;
    assert(short.subrange(at, at + pattern.len()) =~= pattern);
    assert forall|i: int| i < at implies !#[trigger] occurs_at(whole, pattern, i) by {
        if occurs_at(whole, pattern, i) {
            let read = whole.subrange(i, i + pattern.len());
            assert forall|j: int| 0 <= j < pattern.len() implies whole[i + j]
                == #[trigger] pattern[j] by {
                assert(read[j] == pattern[j]);
            }
            if i + pattern.len() <= at {
                assert(stands_at(before, pattern, i));
            } else {
                assert(whole[i + (at - i)] == pattern[at - i]);
                assert(whole[at] == pattern[0]);
            }
        }
    }
    assert forall|i: int| i < at implies !#[trigger] occurs_at(short, pattern, i) by {
        if occurs_at(short, pattern, i) {
            assert(whole.subrange(i, i + pattern.len()) =~= short.subrange(i, i + pattern.len()));
            assert(occurs_at(whole, pattern, i));
        }
    }
}

/// A pattern that is absent does not occur.
proof fn lemma_absent_does_not_occur(text: Seq<char>, pattern: Seq<char>)
    requires
        absent(text, pattern),
    ensures
        !occurs(text, pattern),
{
    law_texts_are_cut_at_the_first_pattern(text, pattern);
    if let Some((before, after)) = split_at_first(text, pattern) {
        assert(stands_at(text, pattern, before.len() as int));
    }
}

/// Parameters that are read onto others take their place.
proof fn lemma_onto(found: Map<Seq<char>, JsonView>, body: Seq<char>)
    ensures
        parameters_onto(found, body) == found.union_prefer_right(parameters(body)),
    decreases body.len(),
{
    let none = Map::<Seq<char>, JsonView>::empty();
    reveal_strlit("<parameter=");
    lemma_split(body, "<parameter="@);
    assert(found.union_prefer_right(none) =~= found);
    if let Some((_, opened)) = split_at_first(body, "<parameter="@) {
        lemma_split(opened, ">"@);
        if let Some((name, named)) = split_at_first(opened, ">"@) {
            if trimmed(name).len() == 0 {
                lemma_onto(found, named);
            } else {
                lemma_split(named, "</parameter>"@);
                if let Some((raw, rest)) = split_at_first(named, "</parameter>"@) {
                    let key = trimmed(name);
                    let value = JsonView::String(bare_value(raw));
                    lemma_onto(found.insert(key, value), rest);
                    lemma_onto(none.insert(key, value), rest);
                    assert(found.insert(key, value).union_prefer_right(parameters(rest))
                        =~= found.union_prefer_right(
                        none.insert(key, value).union_prefer_right(parameters(rest)),
                    ));
                }
            }
        }
    }
}

/// One newline before a value and one behind it are stripped where they are there, and all the rest
/// is the value.
pub proof fn law_one_newline_is_stripped(lead: Seq<char>, value: Seq<char>, trail: Seq<char>)
    requires
        lead == "\n"@ || lead.len() == 0 && ((value + trail).len() > 0 ==> (value
            + trail).first() != '\n'),
        trail == "\n"@ || trail.len() == 0 && (value.len() > 0 ==> value.last() != '\n'),
    ensures
        bare_value(lead + value + trail) == value,
{
    reveal_strlit("\n");
    let raw = lead + value + trail;
    let head = value + trail;
    if lead.len() > 0 {
        assert(raw.subrange(0, 1) =~= "\n"@);
        assert(raw.skip(1) =~= head);
    } else {
        assert(raw =~= head);
        if occurs_at(raw, "\n"@, 0) {
            assert(raw.subrange(0, 1)[0] == '\n');
        }
    }
    if trail.len() > 0 {
        assert(head.subrange(head.len() - 1, head.len() as int) =~= "\n"@);
        assert(head.take(head.len() - 1) =~= value);
    } else {
        assert(head =~= value);
        if occurs_at(head, "\n"@, head.len() - 1) {
            assert(head.subrange(head.len() - 1, head.len() as int)[0] == '\n');
        }
    }
}

/// A body without an opening tag has no parameters.
pub proof fn law_bodies_without_parameters(body: Seq<char>)
    requires
        absent(body, "<parameter="@),
    ensures
        parameters(body) == Map::<Seq<char>, JsonView>::empty(),
{
    lemma_absent_does_not_occur(body, "<parameter="@);
}

/// All the parameter blocks of a body are its parameters: behind any text without an opening tag, a
/// block sets its trimmed name to its value, and the blocks behind it are read as if they stood
/// alone; where one of them has the same name, it counts.
pub proof fn law_every_parameter_of_a_body_is_read(
    between: Seq<char>,
    name: Seq<char>,
    value: Seq<char>,
    rest: Seq<char>,
)
    requires
        absent(between, "<parameter="@),
        !name.contains('>'),
        trimmed(name).len() > 0,
        absent(value, "</parameter>"@),
    ensures
        ({
            let body = between + "<parameter="@ + name + ">"@ + value + "</parameter>"@ + rest;
            let behind = parameters(rest);
            &&& parameters(body).dom() == behind.dom().insert(trimmed(name))
            &&& parameters(body)[trimmed(name)] == if behind.dom().contains(trimmed(name)) {
                behind[trimmed(name)]
            } else {
                JsonView::String(bare_value(value))
            }
            &&& forall|other: Seq<char>| #[trigger]
                behind.dom().contains(other) ==> parameters(body)[other] == behind[other]
        }),
{
    let none = Map::<Seq<char>, JsonView>::empty();
    let block = "<parameter="@ + name + ">"@ + value + "</parameter>"@ + rest;
    let body = between + "<parameter="@ + name + ">"@ + value + "</parameter>"@ + rest;
    let after = name + ">"@ + value + "</parameter>"@ + rest;
    lemma_tags_begin_once();
    lemma_absent(between, "<parameter="@, after);
    lemma_absent(value, "</parameter>"@, rest);
    assert(block =~= "<parameter="@ + after);
    assert(body =~= between + block);
    law_text_between_parameters_is_ignored(none, between, block);
    law_parameters_are_read(none, name, value, rest);
    let key = trimmed(name);
    let set = none.insert(key, JsonView::String(bare_value(value)));
    lemma_onto(set, rest);
    assert(parameters(body) == set.union_prefer_right(parameters(rest)));
    assert(parameters(body).dom() =~= parameters(rest).dom().insert(key));
}

/// A parameter block without a name is left out.
pub proof fn law_nameless_parameters_are_left_out(
    between: Seq<char>,
    name: Seq<char>,
    rest: Seq<char>,
)
    requires
        absent(between, "<parameter="@),
        !name.contains('>'),
        trimmed(name).len() == 0,
    ensures
        parameters(between + "<parameter="@ + name + ">"@ + rest) == parameters(rest),
{
    let none = Map::<Seq<char>, JsonView>::empty();
    let opened = name + ">"@ + rest;
    let block = "<parameter="@ + opened;
    lemma_tags_begin_once();
    lemma_absent(between, "<parameter="@, opened);
    assert(between + "<parameter="@ + name + ">"@ + rest =~= between + block);
    law_text_between_parameters_is_ignored(none, between, block);
    lemma_tag_first("<parameter="@, opened);
    lemma_name_ends(name, rest);
}

/// A parameter block that is not closed is no parameter, nor is anything behind it.
pub proof fn law_unclosed_parameters_do_not_count(
    between: Seq<char>,
    name: Seq<char>,
    rest: Seq<char>,
)
    requires
        absent(between, "<parameter="@),
        !name.contains('>'),
        trimmed(name).len() > 0,
        absent(rest, "</parameter>"@),
    ensures
        parameters(between + "<parameter="@ + name + ">"@ + rest) == Map::<
            Seq<char>,
            JsonView,
        >::empty(),
{
    let none = Map::<Seq<char>, JsonView>::empty();
    let opened = name + ">"@ + rest;
    let block = "<parameter="@ + opened;
    lemma_tags_begin_once();
    lemma_absent(between, "<parameter="@, opened);
    lemma_absent_does_not_occur(rest, "</parameter>"@);
    assert(between + "<parameter="@ + name + ">"@ + rest =~= between + block);
    law_text_between_parameters_is_ignored(none, between, block);
    lemma_tag_first("<parameter="@, opened);
    lemma_name_ends(name, rest);
}

/// An opening tag that does not end makes no parameter.
pub proof fn law_unfinished_tags_make_no_parameters(between: Seq<char>, opened: Seq<char>)
    requires
        absent(between, "<parameter="@),
        !opened.contains('>'),
    ensures
        parameters(between + "<parameter="@ + opened) == Map::<Seq<char>, JsonView>::empty(),
{
    let none = Map::<Seq<char>, JsonView>::empty();
    reveal_strlit(">");
    lemma_tags_begin_once();
    lemma_absent(between, "<parameter="@, opened);
    assert(between + "<parameter="@ + opened =~= between + ("<parameter="@ + opened));
    law_text_between_parameters_is_ignored(none, between, "<parameter="@ + opened);
    lemma_tag_first("<parameter="@, opened);
    lemma_split(opened, ">"@);
    if let Some((before, after)) = split_at_first(opened, ">"@) {
        assert(opened[before.len() as int] == '>');
    }
}

/// Behind any text without an opening tag, a call is read with its trimmed name and the parameters
/// of its body, and the calls behind it are read as if they stood alone.
pub proof fn law_every_call_of_a_text_is_read(
    prose: Seq<char>,
    name: Seq<char>,
    body: Seq<char>,
    rest: Seq<char>,
)
    requires
        absent(prose, "<function="@),
        !name.contains('>'),
        trimmed(name).len() > 0,
        absent(body, "</function>"@),
    ensures
        calls(prose + "<function="@ + name + ">"@ + body + "</function>"@ + rest) == seq![
            XmlCall { name: trimmed(name), parameters: parameters(body) },
        ] + calls(rest),
{
    let after = name + ">"@ + body + "</function>"@ + rest;
    let block = "<function="@ + name + ">"@ + body + "</function>"@ + rest;
    lemma_tags_begin_once();
    lemma_absent(prose, "<function="@, after);
    lemma_absent(body, "</function>"@, rest);
    assert(block =~= "<function="@ + after);
    assert(prose + "<function="@ + name + ">"@ + body + "</function>"@ + rest =~= prose + block);
    law_prose_is_ignored(prose, block);
    law_calls_are_read(name, body, rest);
}

/// A call without a name is left out, and what stands behind its opening tag is read on.
pub proof fn law_nameless_calls_are_left_out(
    prose: Seq<char>,
    name: Seq<char>,
    rest: Seq<char>,
)
    requires
        absent(prose, "<function="@),
        blank(name),
    ensures
        calls(prose + "<function="@ + name + ">"@ + rest) == calls(rest),
{
    reveal_strlit("<function=");
    reveal_strlit(">");
    let opened = name + ">"@ + rest;
    let block = "<function="@ + opened;
    lemma_tags_begin_once();
    lemma_absent(prose, "<function="@, opened);
    assert(prose + "<function="@ + name + ">"@ + rest =~= prose + block);
    law_prose_is_ignored(prose, block);
    lemma_tag_first("<function="@, opened);
    assert(!name.contains('>')) by {
        if name.contains('>') {
            let i = choose|i: int| 0 <= i < name.len() && name[i] == '>';
            assert(white_space(name[i]));
        }
    }
    lemma_name_ends(name, rest);
    let none = Seq::<char>::empty();
    assert(name + none + none =~= name);
    law_white_space_around_makes_no_difference(name, none, none);
    let left = block.skip(1);
    let skipped = left.take(left.len() - rest.len());
    assert(left =~= skipped + rest);
    assert forall|i: int| i < skipped.len() implies !#[trigger] occurs_at(
        skipped + rest,
        "<function="@,
        i,
    ) by {
        if occurs_at(skipped + rest, "<function="@, i) {
            assert((skipped + rest).subrange(i, i + "<function="@.len())[0] == '<');
            assert(skipped[i] == '<');
            if i >= 9 && i < 9 + name.len() {
                assert(skipped[i] == name[i - 9]);
                assert(white_space(name[i - 9]));
            }
        }
    }
    law_prose_is_ignored(skipped, rest);
}

/// An opening tag that does not end makes no call.
pub proof fn law_unfinished_tags_make_no_calls(prose: Seq<char>, opened: Seq<char>)
    requires
        absent(prose, "<function="@),
        !opened.contains('>'),
    ensures
        calls(prose + "<function="@ + opened) == Seq::<XmlCall>::empty(),
{
    reveal_strlit(">");
    lemma_tags_begin_once();
    lemma_absent(prose, "<function="@, opened);
    assert(prose + "<function="@ + opened =~= prose + ("<function="@ + opened));
    law_prose_is_ignored(prose, "<function="@ + opened);
    lemma_tag_first("<function="@, opened);
    lemma_split(opened, ">"@);
    if let Some((before, after)) = split_at_first(opened, ">"@) {
        assert(opened[before.len() as int] == '>');
    }
}

/// A call in the text is a tool call like any other: under its position, by its name, and with the
/// JSON text of its parameters as arguments.
pub proof fn law_calls_in_the_text_are_tool_calls(found: Seq<XmlCall>, at: int)
    requires
        0 <= at < found.len(),
    ensures
        xml_call_views(found).len() == found.len(),
        xml_call_ids(found).len() == found.len(),
        xml_call_views(found)[at] == (CallView {
            id: "xmlcall_"@ + decimal(at as nat),
            name: found[at].name,
            arguments: written(JsonView::Object(found[at].parameters)),
        }),
        xml_call_ids(found)[at] == "xmlcall_"@ + decimal(at as nat),
{
}

} // verus!
