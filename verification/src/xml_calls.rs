//! Tool calls that a model wrote into its text, as
//! `<function=NAME><parameter=KEY>VALUE</parameter></function>`.

use vstd::prelude::*;
use vstd::string::*;

use crate::json::{reads_as, string_members, written, Json, JsonMap, JsonView};
use crate::text::{
    lemma_split, occurs_at, split_at_first, split_once, strip_prefix, strip_suffix, trim, trimmed,
};

verus! {

/// A parsed `<function=NAME>...</function>` block extracted from raw assistant text.
#[derive(Debug)]
pub struct ParsedXmlCall {
    /// Unencoded tool name as it appears in `<function=NAME>`.
    pub name: String,
    /// Parameters serialized as a JSON object string, e.g. `{"input":"..."}`.
    pub arguments: String,
}

/// A call that is written in a text: the tool's name and the values of its parameters.
pub struct XmlCall {
    pub name: Seq<char>,
    pub parameters: Map<Seq<char>, JsonView>,
}

impl XmlCall {
    /// The arguments as a JSON object.
    pub open spec fn object(self) -> JsonView {
        JsonView::Object(self.parameters)
    }

    /// The text of the arguments.
    pub open spec fn arguments(self) -> Seq<char> {
        written(self.object())
    }
}

impl ParsedXmlCall {
    /// This stands for `call`: its name, and its arguments as a text that is read back as they
    /// are.
    pub open spec fn stands_for(&self, call: XmlCall) -> bool {
        &&& self.name@ == call.name
        &&& self.arguments@ == call.arguments()
        &&& reads_as(self.arguments@, call.object())
    }
}

/// The arguments of each of these calls are a text that is read back as they are.
pub open spec fn all_read_back(found: Seq<XmlCall>) -> bool {
    forall|i: int|
        0 <= i < found.len() ==> reads_as((#[trigger] found[i]).arguments(), found[i].object())
}

/// A value without one newline at its beginning and one at its end.
pub open spec fn bare_value(raw: Seq<char>) -> Seq<char> {
    let head = if occurs_at(raw, "\n"@, 0) {
        raw.skip("\n"@.len() as int)
    } else {
        raw
    };
    if occurs_at(head, "\n"@, head.len() - "\n"@.len()) {
        head.take(head.len() - "\n"@.len())
    } else {
        head
    }
}

/// `found` and, set in their order, the parameters that are written in `body`. A parameter
/// without a name is left out; the first that is not closed ends the list.
pub open spec fn parameters_onto(
    found: Map<Seq<char>, JsonView>,
    body: Seq<char>,
) -> Map<Seq<char>, JsonView>
    decreases body.len(),
{
    proof {
        reveal_strlit("<parameter=");
        lemma_split(body, "<parameter="@);
    }
    match split_at_first(body, "<parameter="@) {
        Some((_, opened)) => {
            proof {
                lemma_split(opened, ">"@);
            }
            match split_at_first(opened, ">"@) {
                Some((name, named)) => if trimmed(name).len() == 0 {
                    parameters_onto(found, named)
                } else {
                    proof {
                        lemma_split(named, "</parameter>"@);
                    }
                    match split_at_first(named, "</parameter>"@) {
                        Some((raw, rest)) => parameters_onto(
                            found.insert(trimmed(name), JsonView::String(bare_value(raw))),
                            rest,
                        ),
                        None => found,
                    }
                },
                None => found,
            }
        },
        None => found,
    }
}

/// The parameters that are written in the body of a call; the last value of a name counts.
pub open spec fn parameters(body: Seq<char>) -> Map<Seq<char>, JsonView> {
    parameters_onto(Map::empty(), body)
}

/// The calls that are written in a text, in their order. What stands around them is left out, as
/// is a call without a name; the first that is not closed ends the list.
pub open spec fn calls(text: Seq<char>) -> Seq<XmlCall>
    decreases text.len(),
{
    proof {
        reveal_strlit("<function=");
        lemma_split(text, "<function="@);
    }
    match split_at_first(text, "<function="@) {
        Some((before, opened)) => {
            proof {
                lemma_split(opened, ">"@);
            }
            match split_at_first(opened, ">"@) {
                Some((name, named)) => if trimmed(name).len() == 0 {
                    calls(text.skip(before.len() as int + 1))
                } else {
                    proof {
                        lemma_split(named, "</function>"@);
                    }
                    match split_at_first(named, "</function>"@) {
                        Some((body, rest)) => seq![
                            XmlCall { name: trimmed(name), parameters: parameters(body) },
                        ] + calls(rest),
                        None => Seq::empty(),
                    }
                },
                None => Seq::empty(),
            }
        },
        None => Seq::empty(),
    }
}

/// Strips exactly one leading and one trailing newline.
fn strip_newlines(raw: &str) -> (r: &str)
    ensures
        r@ == bare_value(raw@),
{
    let head = match strip_prefix(raw, "\n") {
        Some(rest) => rest,
        None => raw,
    };
    match strip_suffix(head, "\n") {
        Some(rest) => rest,
        None => head,
    }
}

/// Every parameter is a string.
proof fn lemma_parameters_are_strings(found: Map<Seq<char>, JsonView>, body: Seq<char>)
    requires
        string_members(JsonView::Object(found)),
    ensures
        string_members(JsonView::Object(parameters_onto(found, body))),
    decreases body.len(),
{
    reveal_strlit("<parameter=");
    lemma_split(body, "<parameter="@);
    if let Some((_, opened)) = split_at_first(body, "<parameter="@) {
        lemma_split(opened, ">"@);
        if let Some((name, named)) = split_at_first(opened, ">"@) {
            if trimmed(name).len() == 0 {
                lemma_parameters_are_strings(found, named);
            } else {
                lemma_split(named, "</parameter>"@);
                if let Some((raw, rest)) = split_at_first(named, "</parameter>"@) {
                    lemma_parameters_are_strings(
                        found.insert(trimmed(name), JsonView::String(bare_value(raw))),
                        rest,
                    );
                }
            }
        }
    }
}

/// Reads the `<parameter=KEY>VALUE</parameter>` blocks of a call's body.
pub fn parse_xml_parameters(body: &str) -> (r: JsonMap)
    ensures
        r.members() == parameters(body@),
        string_members(JsonView::Object(r.members())),
{
    proof {
        lemma_parameters_are_strings(Map::empty(), body@);
        reveal_strlit("<parameter=");
    }
    let mut found = JsonMap::new();
    let mut remaining = body;
    loop
        invariant
            "<parameter="@.len() > 0,
            parameters(body@) == parameters_onto(found.members(), remaining@),
            string_members(JsonView::Object(parameters(body@))),
        decreases remaining@.len(),
    {
        let opened = match split_once(remaining, "<parameter=") {
            Some((_, opened)) => opened,
            None => return found,
        };
        let (name, named) = match split_once(opened, ">") {
            Some(parts) => parts,
            None => return found,
        };
        let name = trim(name);
        if name.is_empty() {
            remaining = named;
        } else {
            match split_once(named, "</parameter>") {
                Some((raw, rest)) => {
                    found.insert(name.to_owned(), Json::String(strip_newlines(raw).to_owned()));
                    remaining = rest;
                },
                None => return found,
            }
        }
    }
}

/// Parse zero or more `<function=NAME>...<parameter=K>V</parameter>...</function>` blocks from
/// `text`.
///
/// - Opening tag: `<function=NAME>`, where NAME ends at `>`.
/// - Parameter blocks: `<parameter=KEY>\nVALUE\n</parameter>`; exactly one leading and one
///   trailing newline around VALUE is stripped, and what is left is preserved verbatim.
/// - Closing tag: `</function>`.
/// - Stray tags and prose before, after and between blocks are ignored.
pub fn parse_xml_tool_calls(text: &str) -> (r: Vec<ParsedXmlCall>)
    ensures
        r@.len() == calls(text@).len(),
        forall|i: int| 0 <= i < r@.len() ==> (#[trigger] r@[i]).stands_for(calls(text@)[i]),
        all_read_back(calls(text@)),
{
    proof {
        reveal_strlit("<function=");
    }
    let mut found: Vec<ParsedXmlCall> = Vec::new();
    let mut remaining = text;
    let ghost mut done: Seq<XmlCall> = Seq::empty();
    assert(done + calls(remaining@) =~= calls(text@));
    loop
        invariant
            "<function="@.len() > 0,
            calls(text@) == done + calls(remaining@),
            found@.len() == done.len(),
            all_read_back(done),
            forall|i: int| 0 <= i < found@.len() ==> (#[trigger] found@[i]).stands_for(done[i]),
        decreases remaining@.len(),
    {
        let (before, opened) = match split_once(remaining, "<function=") {
            Some(parts) => parts,
            None => return found,
        };
        let (name, named) = match split_once(opened, ">") {
            Some(parts) => parts,
            None => return found,
        };
        let name = trim(name);
        if name.is_empty() {
            let total: usize = remaining.unicode_len();
            remaining = remaining.substring_char(before.unicode_len() + 1, total);
        } else {
            let (body, rest) = match split_once(named, "</function>") {
                Some(parts) => parts,
                None => return found,
            };
            let parameters = parse_xml_parameters(body);
            let arguments = Json::Object(parameters).to_text();
            let call = ParsedXmlCall { name: name.to_owned(), arguments };
            let ghost view = XmlCall { name: name@, parameters: parameters.members() };
            assert(call.stands_for(view));
            proof {
                assert(done + (seq![view] + calls(rest@)) =~= done.push(view) + calls(rest@));
                done = done.push(view);
            }
            found.push(call);
            remaining = rest;
        }
    }
}

} // verus!
