//! Names go over the wire and come back.

use vstd::prelude::*;

use crate::laws::text::{law_texts_are_cut_at_the_first_pattern, stands_at};
use crate::text::{closes, lemma_position, lemma_split_there, occurs, position};
use crate::tool_map::{decoded, encoded, NS_SEP};

verus! {

/// A namespace that may be missing; an empty one is none.
pub open spec fn proper(namespace: Option<Seq<char>>) -> Option<Seq<char>> {
    match namespace {
        Some(ns) => if ns.len() > 0 {
            Some(ns)
        } else {
            None
        },
        None => None,
    }
}

/// The separator does not get in the way of this name: it does not stand before the place where a
/// namespace ends, and not at all in a name without one.
pub open spec fn unambiguous(namespace: Option<Seq<char>>, name: Seq<char>) -> bool {
    match proper(namespace) {
        Some(ns) => closes(ns, NS_SEP@),
        None => !occurs(name, NS_SEP@),
    }
}

/// Decoding an encoded name gives back the namespace and the name, exactly where the separator does
/// not get in the way.
pub proof fn law_decoding_undoes_encoding(namespace: Option<Seq<char>>, name: Seq<char>)
    ensures
        decoded(encoded(namespace, name)) == (proper(namespace), name) <==> unambiguous(
            namespace,
            name,
        ),
{
    reveal_strlit("__NS__");
    lemma_position(name, NS_SEP@);
    if let Some(ns) = proper(namespace) {
        let key = ns + NS_SEP@ + name;
        lemma_split_there(ns, NS_SEP@, name);
        lemma_position(key, NS_SEP@);
        if closes(ns, NS_SEP@) {
            assert(key.take(ns.len() as int) =~= ns);
            assert(key.skip(ns.len() as int + NS_SEP@.len()) =~= name);
        }
        if decoded(key) == (Some(ns), name) {
            let at = position(key, NS_SEP@)->0;
            assert(key.take(at).len() == at);
        }
    }
}

/// Encoding what was decoded gives back the encoded name, unless it begins with the separator.
pub proof fn law_encoding_undoes_decoding(key: Seq<char>)
    requires
        decoded(key).0 != Some(Seq::<char>::empty()),
    ensures
        encoded(decoded(key).0, decoded(key).1) == key,
{
    lemma_position(key, NS_SEP@);
    if let Some(at) = position(key, NS_SEP@) {
        if at == 0 {
            assert(key.take(at) =~= Seq::<char>::empty());
        }
        assert(key.take(at) + NS_SEP@ + key.skip(at + NS_SEP@.len()) =~= key);
    }
}

/// Two tools whose names are unambiguous go by the same encoded name only if they have the same
/// namespace and name.
pub proof fn law_encoded_names_tell_tools_apart(
    namespace: Option<Seq<char>>,
    name: Seq<char>,
    other_namespace: Option<Seq<char>>,
    other_name: Seq<char>,
)
    requires
        unambiguous(namespace, name),
        unambiguous(other_namespace, other_name),
        encoded(namespace, name) == encoded(other_namespace, other_name),
    ensures
        proper(namespace) == proper(other_namespace),
        name == other_name,
{
    law_decoding_undoes_encoding(namespace, name);
    law_decoding_undoes_encoding(other_namespace, other_name);
}

/// A namespace that is not empty stands before the name, with the separator between them, and else
/// the name stands alone.
pub proof fn law_namespaces_stand_before_names(namespace: Option<Seq<char>>, name: Seq<char>)
    ensures
        encoded(namespace, name) == match proper(namespace) {
            Some(ns) => ns + "__NS__"@ + name,
            None => name,
        },
{
}

/// An encoded name is taken apart at the first separator in it; without one it is all name.
pub proof fn law_names_are_taken_apart_at_the_first_separator(key: Seq<char>)
    ensures
        match decoded(key) {
            (Some(ns), name) => {
                &&& key == ns + "__NS__"@ + name
                &&& forall|i: int| 0 <= i < ns.len() ==> !#[trigger] stands_at(key, "__NS__"@, i)
            },
            (None, name) => {
                &&& name == key
                &&& forall|i: int| !#[trigger] stands_at(key, "__NS__"@, i)
            },
        },
{
    law_texts_are_cut_at_the_first_pattern(key, "__NS__"@);
}

} // verus!
