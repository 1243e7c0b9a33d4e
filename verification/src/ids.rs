//! Identifiers for what a local model sends without one.

use vstd::prelude::*;

verus! {

/// A lower-case hexadecimal digit.
pub open spec fn hex_digit(c: char) -> bool {
    '0' <= c <= '9' || 'a' <= c <= 'f'
}

/// The text of a random (version 4) UUID: lower-case hexadecimal digits in groups of eight, four,
/// four, four and twelve, hyphens between them, the version at the head of the third group and
/// the variant at the head of the fourth.
pub open spec fn uuid_text(id: Seq<char>) -> bool {
    &&& id.len() == 36
    &&& forall|i: int|
        #![trigger id[i]]
        0 <= i < 36 ==> if i == 8 || i == 13 || i == 18 || i == 23 {
            id[i] == '-'
        } else {
            hex_digit(id[i])
        }
    &&& id[14] == '4'
    &&& id[19] == '8' || id[19] == '9' || id[19] == 'a' || id[19] == 'b'
}

/// `uuid::Uuid::new_v4`, written out as text. Which identifier comes is left to chance, and no
/// clause says that two of them differ; the contract holds of every one.
#[verifier::external_body]
pub(crate) fn fresh_id() -> (r: String)
    ensures
        uuid_text(r@),
{
    uuid::Uuid::new_v4().to_string()
}

/// As many fresh identifiers as are asked for.
pub(crate) fn fresh_ids(count: usize) -> (r: Vec<String>)
    ensures
        r@.len() == count,
        all_uuid_texts(r.deep_view()),
{
    let mut r: Vec<String> = Vec::new();
    while r.len() < count
        invariant
            r@.len() <= count,
            all_uuid_texts(r.deep_view()),
        decreases count - r@.len(),
    {
        let ghost before = r.deep_view();
        let id = fresh_id();
        r.push(id);
        assert(r.deep_view() =~= before.push(id@));
    }
    r
}

/// Texts of random UUIDs.
pub open spec fn all_uuid_texts(ids: Seq<Seq<char>>) -> bool {
    forall|i: int| 0 <= i < ids.len() ==> uuid_text(#[trigger] ids[i])
}

/// A text that is that of a random UUID.
pub open spec fn sample_uuid_text() -> Seq<char> {
    Seq::new(
        36,
        |i: int|
            if i == 8 || i == 13 || i == 18 || i == 23 {
                '-'
            } else if i == 14 {
                '4'
            } else if i == 19 {
                '8'
            } else {
                '0'
            },
    )
}

/// There is such a text.
pub proof fn lemma_sample_uuid_text()
    ensures
        uuid_text(sample_uuid_text()),
{
}

} // verus!
