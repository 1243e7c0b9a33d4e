//! JSON values, and the two calls that read them from text and write them to it.

use vstd::prelude::*;

use crate::text;

verus! {

/// What a JSON value is. The members of an object are a map: their order is no part of it.
pub enum JsonView {
    Null,
    Bool(bool),
    Number(serde_json::Number),
    String(Seq<char>),
    Array(Seq<JsonView>),
    Object(Map<Seq<char>, JsonView>),
}

/// A JSON value.
#[derive(Debug)]
pub enum Json {
    Null,
    Bool(bool),
    Number(serde_json::Number),
    String(String),
    Array(Vec<Json>),
    Object(JsonMap),
}

/// The members of a JSON object, each name once.
#[derive(Debug)]
pub struct JsonMap {
    entries: Vec<(String, Json)>,
}

/// `serde_json::Number`, which holds an integer or a floating-point number. It is carried
/// through and never read.
#[verifier::external_type_specification]
#[verifier::external_body]
pub struct ExNumber(serde_json::Number);

/// `serde_json::Value`, the tree that `serde_json` reads and writes.
#[verifier::external_type_specification]
#[verifier::external_body]
pub struct ExValue(serde_json::Value);

/// The JSON value that a `serde_json::Value` holds.
pub uninterp spec fn held(value: serde_json::Value) -> JsonView;

/// What `serde_json::from_str` makes of a text: the value that is written there, or the
/// description of the first fault in it.
pub uninterp spec fn read(text: Seq<char>) -> Result<JsonView, Seq<char>>;

/// `text` is read as `value`.
pub open spec fn reads_as(text: Seq<char>, value: JsonView) -> bool {
    read(text) == Ok::<JsonView, Seq<char>>(value)
}

/// `text` is not JSON, and `fault` says why.
pub open spec fn faulty_with(text: Seq<char>, fault: Seq<char>) -> bool {
    read(text) == Err::<JsonView, Seq<char>>(fault)
}

/// The compact text that `serde_json` writes for a value.
pub uninterp spec fn written(value: JsonView) -> Seq<char>;

/// A clone of a `serde_json::Number` is the same number.
pub assume_specification[ <serde_json::Number as Clone>::clone ](n: &serde_json::Number) -> (r:
    serde_json::Number)
    ensures
        r == *n,
;

impl Json {
    /// The value that this stands for.
    pub open spec fn value(&self) -> JsonView
        decreases self,
    {
        match self {
            Json::Null => JsonView::Null,
            Json::Bool(b) => JsonView::Bool(*b),
            Json::Number(n) => JsonView::Number(*n),
            Json::String(s) => JsonView::String(s@),
            Json::Array(items) => JsonView::Array(
                Seq::new(
                    items@.len(),
                    |i: int|
                        if 0 <= i < items@.len() {
                            items@[i].value()
                        } else {
                            JsonView::Null
                        },
                ),
            ),
            Json::Object(members) => JsonView::Object(members.members()),
        }
    }
}

impl DeepView for Json {
    type V = JsonView;

    open spec fn deep_view(&self) -> JsonView {
        self.value()
    }
}

impl JsonMap {
    /// The members by their names.
    pub closed spec fn members(&self) -> Map<Seq<char>, JsonView>
        decreases self,
    {
        members_of(self.entries@)
    }
}

/// The members that a list of entries makes up, a later entry standing for an earlier one of its
/// name.
spec fn members_of(entries: Seq<(String, Json)>) -> Map<Seq<char>, JsonView>
    decreases entries,
{
    if entries.len() == 0 {
        Map::empty()
    } else {
        members_of(entries.drop_last()).insert(entries.last().0@, entries.last().1.value())
    }
}

/// Writing over the last entry of a name is the same as inserting under that name.
proof fn lemma_overwrite(entries: Seq<(String, Json)>, at: int, entry: (String, Json))
    requires
        0 <= at < entries.len(),
        entries[at].0@ == entry.0@,
        forall|later: int| at < later < entries.len() ==> (#[trigger] entries[later]).0@ != entry.0@,
    ensures
        members_of(entries.update(at, entry)) == members_of(entries).insert(
            entry.0@,
            entry.1.value(),
        ),
    decreases entries.len(),
{
    let after = entries.update(at, entry);
    if at == entries.len() - 1 {
        assert(after.drop_last() =~= entries.drop_last());
    } else {
        lemma_overwrite(entries.drop_last(), at, entry);
        assert(after.drop_last() =~= entries.drop_last().update(at, entry));
        assert(entries.last().0@ != entry.0@);
    }
    assert(members_of(after) =~= members_of(entries).insert(entry.0@, entry.1.value()));
}

impl JsonMap {
    /// An object without members.
    pub fn new() -> (r: JsonMap)
        ensures
            r.members() == Map::<Seq<char>, JsonView>::empty(),
    {
        JsonMap { entries: Vec::new() }
    }

    /// The position of the last entry of a name.
    fn locate(&self, name: &str) -> (r: Option<usize>)
        ensures
            match r {
                Some(at) => {
                    &&& at < self.entries@.len()
                    &&& self.entries@[at as int].0@ == name@
                    &&& forall|later: int|
                        at < later < self.entries@.len() ==> (
                        #[trigger] self.entries@[later]).0@ != name@
                    &&& self.members().dom().contains(name@)
                    &&& self.members()[name@] == self.entries@[at as int].1.value()
                },
                None => !self.members().dom().contains(name@),
            },
    {
        let mut left: usize = self.entries.len();
        assert(self.entries@.take(left as int) =~= self.entries@);
        while left > 0
            invariant
                left <= self.entries@.len(),
                forall|later: int|
                    left <= later < self.entries@.len() ==> (#[trigger] self.entries@[later]).0@
                        != name@,
                self.members().dom().contains(name@) == members_of(
                    self.entries@.take(left as int),
                ).dom().contains(name@),
                self.members()[name@] == members_of(self.entries@.take(left as int))[name@],
            decreases left,
        {
            assert(self.entries@.take(left as int).drop_last() =~= self.entries@.take(left - 1));
            if text::same(self.entries[left - 1].0.as_str(), name) {
                return Some(left - 1);
            }
            left -= 1;
        }
        None
    }

    /// The member of a name.
    pub fn get(&self, name: &str) -> (r: Option<&Json>)
        ensures
            match r {
                Some(member) => self.members().dom().contains(name@) && self.members()[name@]
                    == member.value(),
                None => !self.members().dom().contains(name@),
            },
    {
        match self.locate(name) {
            Some(at) => Some(&self.entries[at].1),
            None => None,
        }
    }

    /// Sets the member of a name.
    pub fn insert(&mut self, name: String, value: Json)
        ensures
            final(self).members() == old(self).members().insert(name@, value.value()),
    {
        match self.locate(name.as_str()) {
            Some(at) => {
                proof {
                    lemma_overwrite(self.entries@, at as int, (name, value));
                }
                self.entries.set(at, (name, value));
            },
            None => {
                let ghost before = self.entries@;
                self.entries.push((name, value));
                assert(self.entries@.drop_last() =~= before);
            },
        }
    }
}

impl Clone for JsonMap {
    fn clone(&self) -> (r: Self)
        ensures
            r.members() == self.members(),
        decreases self,
    {
        let mut entries: Vec<(String, Json)> = Vec::new();
        let mut i: usize = 0;
        assert(self.entries@.take(0) =~= Seq::<(String, Json)>::empty());
        while i < self.entries.len()
            invariant
                i <= self.entries@.len(),
                members_of(entries@) == members_of(self.entries@.take(i as int)),
            decreases self.entries@.len() - i,
        {
            let ghost before = entries@;
            let name = self.entries[i].0.clone();
            let value = self.entries[i].1.clone();
            entries.push((name, value));
            assert(entries@.drop_last() =~= before);
            assert(self.entries@.take(i + 1).drop_last() =~= self.entries@.take(i as int));
            i += 1;
        }
        assert(self.entries@.take(i as int) =~= self.entries@);
        JsonMap { entries }
    }
}

impl Clone for Json {
    fn clone(&self) -> (r: Self)
        ensures
            r.value() == self.value(),
        decreases self,
    {
        match self {
            Json::Null => Json::Null,
            Json::Bool(b) => Json::Bool(*b),
            Json::Number(n) => Json::Number(n.clone()),
            Json::String(s) => Json::String(s.clone()),
            Json::Array(items) => {
                let mut copies: Vec<Json> = Vec::new();
                let mut i: usize = 0;
                while i < items.len()
                    invariant
                        *self == Json::Array(*items),
                        i <= items@.len(),
                        copies@.len() == i,
                        forall|k: int|
                            0 <= k < i ==> (#[trigger] copies@[k]).value() == items@[k].value(),
                    decreases items@.len() - i,
                {
                    assert(decreases_to!(*self => self->Array_0));
                    assert(decreases_to!(self->Array_0 => items@[i as int]));
                    copies.push(items[i].clone());
                    i += 1;
                }
                let r = Json::Array(copies);
                assert(r.value()->Array_0 =~= self.value()->Array_0);
                r
            },
            Json::Object(members) => Json::Object(members.clone()),
        }
    }
}

/// An object all of whose members are strings.
pub open spec fn string_members(value: JsonView) -> bool {
    value matches JsonView::Object(members) && forall|name: Seq<char>| #[trigger]
        members.dom().contains(name) ==> members[name] is String
}

/// Builds the `serde_json::Value` that holds a value: one constructor for each case, one
/// `serde_json::Map` entry for each member, a later entry taking the place of an earlier one.
#[verifier::external_body]
fn to_value(json: &Json) -> (r: serde_json::Value)
    ensures
        held(r) == json.value(),
{
    match json {
        Json::Null => serde_json::Value::Null,
        Json::Bool(b) => serde_json::Value::Bool(*b),
        Json::Number(n) => serde_json::Value::Number(n.clone()),
        Json::String(s) => serde_json::Value::String(s.clone()),
        Json::Array(items) => serde_json::Value::Array(items.iter().map(to_value).collect()),
        Json::Object(members) => serde_json::Value::Object(
            members.entries.iter().map(|e| (e.0.clone(), to_value(&e.1))).collect(),
        ),
    }
}

/// Takes the value out of a `serde_json::Value`, case by case.
#[verifier::external_body]
fn from_value(value: serde_json::Value) -> (r: Json)
    ensures
        r.value() == held(value),
{
    match value {
        serde_json::Value::Null => Json::Null,
        serde_json::Value::Bool(b) => Json::Bool(b),
        serde_json::Value::Number(n) => Json::Number(n),
        serde_json::Value::String(s) => Json::String(s),
        serde_json::Value::Array(items) => Json::Array(items.into_iter().map(from_value).collect()),
        serde_json::Value::Object(members) => Json::Object(
            JsonMap { entries: members.into_iter().map(|e| (e.0, from_value(e.1))).collect() },
        ),
    }
}

/// `serde_json::from_str`, which reads a text as one JSON value or describes the first fault in
/// it. Nothing but the text decides which.
#[verifier::external_body]
fn read_value(text: &str) -> (r: Result<serde_json::Value, String>)
    ensures
        match r {
            Ok(value) => read(text@) == Ok::<JsonView, Seq<char>>(held(value)),
            Err(fault) => read(text@) == Err::<JsonView, Seq<char>>(fault@),
        },
{
    serde_json::from_str::<serde_json::Value>(text).map_err(|e| e.to_string())
}

/// `serde_json::Value::to_string`, which writes a value as compact JSON. Nothing but the value
/// decides the text, as objects keep their members in the order of their names. An object of
/// strings is read back as it was; numbers and deep nesting are left out of that claim.
#[verifier::external_body]
fn write_value(value: &serde_json::Value) -> (r: String)
    ensures
        r@ == written(held(*value)),
        string_members(held(*value)) ==> reads_as(r@, held(*value)),
{
    value.to_string()
}

impl Json {
    /// An array of values.
    pub fn array(items: Vec<Json>) -> (r: Json)
        ensures
            r.value() == JsonView::Array(items.deep_view()),
    {
        let r = Json::Array(items);
        assert(r.value()->Array_0 =~= items.deep_view());
        r
    }

    /// Reads a text as one JSON value.
    pub fn parse(text: &str) -> (r: Result<Json, String>)
        ensures
            match r {
                Ok(value) => reads_as(text@, value.value()),
                Err(fault) => faulty_with(text@, fault@),
            },
    {
        match read_value(text) {
            Ok(value) => Ok(from_value(value)),
            Err(fault) => Err(fault),
        }
    }

    /// Writes the value as compact JSON. An object of strings is read back as it was.
    pub fn to_text(&self) -> (r: String)
        ensures
            r@ == written(self.value()),
            string_members(self.value()) ==> reads_as(r@, self.value()),
    {
        let value = to_value(self);
        write_value(&value)
    }

    /// The member of a name, where this is an object that has it.
    pub fn get(&self, name: &str) -> (r: Option<&Json>)
        ensures
            match r {
                Some(member) => self.value().member(name@) == Some(member.value()),
                None => self.value().member(name@) is None,
            },
    {
        match self {
            Json::Object(members) => members.get(name),
            _ => None,
        }
    }

    /// The text of a string.
    pub fn as_str(&self) -> (r: Option<&str>)
        ensures
            match r {
                Some(s) => self.value() == JsonView::String(s@),
                None => !(self.value() is String),
            },
    {
        match self {
            Json::String(s) => Some(s.as_str()),
            _ => None,
        }
    }

    /// The truth value of a boolean.
    pub fn as_bool(&self) -> (r: Option<bool>)
        ensures
            match r {
                Some(b) => self.value() == JsonView::Bool(b),
                None => !(self.value() is Bool),
            },
    {
        match self {
            Json::Bool(b) => Some(*b),
            _ => None,
        }
    }

    /// The items of an array.
    pub fn as_array(&self) -> (r: Option<&Vec<Json>>)
        ensures
            match r {
                Some(items) => self.value() == JsonView::Array(items.deep_view()),
                None => !(self.value() is Array),
            },
    {
        match self {
            Json::Array(items) => {
                assert(self.value()->Array_0 =~= items.deep_view());
                Some(items)
            },
            _ => None,
        }
    }
}

impl JsonView {
    /// The member of a name, where this is an object that has it.
    pub open spec fn member(self, name: Seq<char>) -> Option<JsonView> {
        match self {
            JsonView::Object(members) => if members.dom().contains(name) {
                Some(members[name])
            } else {
                None
            },
            _ => None,
        }
    }

    /// The text of a string.
    pub open spec fn text(self) -> Option<Seq<char>> {
        match self {
            JsonView::String(s) => Some(s),
            _ => None,
        }
    }

    /// The text of the string member of a name.
    pub open spec fn text_member(self, name: Seq<char>) -> Option<Seq<char>> {
        match self.member(name) {
            Some(member) => member.text(),
            None => None,
        }
    }
}

impl Json {
    /// The text of the string member of a name.
    pub fn get_str(&self, name: &str) -> (r: Option<&str>)
        ensures
            match r {
                Some(s) => self.value().text_member(name@) == Some(s@),
                None => self.value().text_member(name@) is None,
            },
    {
        match self.get(name) {
            Some(member) => member.as_str(),
            None => None,
        }
    }
}

} // verus!
