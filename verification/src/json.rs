//! JSON values.
//!
//! [`Json`] holds a value, [`JsonModel`] says what the value is: the contracts
//! of this crate speak of the model. JSON text is read by `serde_json`.

use vstd::prelude::*;
use crate::text;

verus! {

/// A JSON value.
#[derive(Debug)]
pub enum Json {
    Null,
    Bool(bool),
    /// A number, by its JSON text.
    Number(String),
    Text(String),
    Array(Vec<Json>),
    Object(JsonObject),
}

/// The members of a JSON object. A later entry hides an earlier one of the
/// same name.
#[derive(Debug)]
pub struct JsonObject {
    pub entries: Vec<(String, Json)>,
}

/// What a JSON value is, apart from how it is held.
#[verifier::ext_equal]
pub enum JsonModel {
    Null,
    Bool(bool),
    Number(Seq<char>),
    Text(Seq<char>),
    Array(Seq<JsonModel>),
    Object(Map<Seq<char>, JsonModel>),
}

impl JsonModel {
    /// The member called `name`, of an object that has one.
    pub open spec fn get(self, name: Seq<char>) -> Option<JsonModel> {
        match self {
            JsonModel::Object(members) => if members.dom().contains(name) {
                Some(members[name])
            } else {
                None
            },
            _ => None,
        }
    }

    /// The member called `name`; null where there is none.
    pub open spec fn member(self, name: Seq<char>) -> JsonModel {
        match self.get(name) {
            Some(value) => value,
            None => JsonModel::Null,
        }
    }

    /// The characters of a string.
    pub open spec fn text(self) -> Option<Seq<char>> {
        match self {
            JsonModel::Text(chars) => Some(chars),
            _ => None,
        }
    }

    /// The items of an array.
    pub open spec fn items(self) -> Option<Seq<JsonModel>> {
        match self {
            JsonModel::Array(items) => Some(items),
            _ => None,
        }
    }
}

impl Json {
    /// What this value is.
    pub open spec fn model(self) -> JsonModel
        decreases self,
    {
        match self {
            Json::Null => JsonModel::Null,
            Json::Bool(b) => JsonModel::Bool(b),
            Json::Number(digits) => JsonModel::Number(digits@),
            Json::Text(chars) => JsonModel::Text(chars@),
            Json::Array(items) => JsonModel::Array(items_model(items@)),
            Json::Object(object) => JsonModel::Object(entries_model(object.entries@)),
        }
    }
}

impl View for Json {
    type V = JsonModel;

    open spec fn view(&self) -> JsonModel {
        self.model()
    }
}

impl View for JsonObject {
    type V = Map<Seq<char>, JsonModel>;

    open spec fn view(&self) -> Map<Seq<char>, JsonModel> {
        entries_model(self.entries@)
    }
}

/// What the items of an array are.
pub open spec fn items_model(items: Seq<Json>) -> Seq<JsonModel>
    decreases items,
{
    Seq::new(
        items.len(),
        |i: int|
            if 0 <= i < items.len() {
                items[i].model()
            } else {
                JsonModel::Null
            },
    )
}

/// What the members of an object are.
pub open spec fn entries_model(entries: Seq<(String, Json)>) -> Map<Seq<char>, JsonModel>
    decreases entries,
{
    if entries.len() == 0 {
        Map::empty()
    } else {
        entries_model(entries.drop_last()).insert(entries.last().0@, entries.last().1.model())
    }
}

/// A name that no entry carries is no member.
proof fn lemma_absent(entries: Seq<(String, Json)>, name: Seq<char>)
    requires
        forall|i: int| 0 <= i < entries.len() ==> (#[trigger] entries[i]).0@ != name,
    ensures
        !entries_model(entries).dom().contains(name),
    decreases entries.len(),
{
    if entries.len() > 0 {
        assert(entries[entries.len() - 1].0@ != name);
        assert forall|i: int| 0 <= i < entries.drop_last().len() implies (
        #[trigger] entries.drop_last()[i]).0@ != name by {
            assert(entries[i].0@ != name);
        }
        lemma_absent(entries.drop_last(), name);
    }
}

/// The last entry of a name is the member of that name.
proof fn lemma_present(entries: Seq<(String, Json)>, at: int)
    requires
        0 <= at < entries.len(),
        forall|i: int| at < i < entries.len() ==> (#[trigger] entries[i]).0@ != entries[at].0@,
    ensures
        entries_model(entries).dom().contains(entries[at].0@),
        entries_model(entries)[entries[at].0@] == entries[at].1@,
    decreases entries.len(),
{
    if at < entries.len() - 1 {
        assert(entries[entries.len() - 1].0@ != entries[at].0@);
        assert forall|i: int| at < i < entries.drop_last().len() implies (
        #[trigger] entries.drop_last()[i]).0@ != entries[at].0@ by {
            assert(entries[i].0@ != entries[at].0@);
        }
        lemma_present(entries.drop_last(), at);
    }
}

/// To drop an entry touches no member of another name.
proof fn lemma_drop_entry(entries: Seq<(String, Json)>, at: int)
    requires
        0 <= at < entries.len(),
    ensures
        entries_model(entries.remove(at)).remove(entries[at].0@) == entries_model(entries).remove(
            entries[at].0@,
        ),
    decreases entries.len(),
{
    let name = entries[at].0@;
    let shorter = entries.remove(at);
    if at == entries.len() - 1 {
        assert(shorter =~= entries.drop_last());
        assert(entries_model(shorter).remove(name) =~= entries_model(entries).remove(name));
    } else {
        lemma_drop_entry(entries.drop_last(), at);
        assert(shorter.drop_last() =~= entries.drop_last().remove(at));
        assert(shorter.last() == entries.last());
        let last = entries.last();
        let m = entries_model(entries.drop_last());
        let n = entries_model(shorter.drop_last());
        assert(n.remove(name) == m.remove(name));
        if last.0@ == name {
            assert(n.insert(last.0@, last.1@).remove(name) =~= n.remove(name));
            assert(m.insert(last.0@, last.1@).remove(name) =~= m.remove(name));
        } else {
            assert(n.insert(last.0@, last.1@).remove(name) =~= n.remove(name).insert(
                last.0@,
                last.1@,
            ));
            assert(m.insert(last.0@, last.1@).remove(name) =~= m.remove(name).insert(
                last.0@,
                last.1@,
            ));
        }
    }
}

impl JsonObject {
    /// An object without members.
    pub fn new() -> (r: Self)
        ensures
            r@ == Map::<Seq<char>, JsonModel>::empty(),
    {
        JsonObject { entries: Vec::new() }
    }

    /// The member called `name`.
    pub fn get(&self, name: &str) -> (r: Option<&Json>)
        ensures
            match r {
                Some(value) => self@.dom().contains(name@) && value@ == self@[name@],
                None => !self@.dom().contains(name@),
            },
    {
        let mut i: usize = self.entries.len();
        while i > 0
            invariant
                i <= self.entries@.len(),
                forall|j: int|
                    i <= j < self.entries@.len() ==> (#[trigger] self.entries@[j]).0@ != name@,
            decreases i,
        {
            i -= 1;
            if text::str_eq(self.entries[i].0.as_str(), name) {
                proof {
                    lemma_present(self.entries@, i as int);
                }
                return Some(&self.entries[i].1);
            }
        }
        proof {
            lemma_absent(self.entries@, name@);
        }
        None
    }

    /// Removes the member called `name`, if there is one.
    pub fn remove(&mut self, name: &str)
        ensures
            final(self)@ == old(self)@.remove(name@),
    {
        let mut i: usize = 0;
        while i < self.entries.len()
            invariant
                i <= self.entries@.len(),
                forall|j: int| 0 <= j < i ==> (#[trigger] self.entries@[j]).0@ != name@,
                entries_model(self.entries@).remove(name@) == old(self)@.remove(name@),
            decreases self.entries@.len() - i,
        {
            if text::str_eq(self.entries[i].0.as_str(), name) {
                proof {
                    lemma_drop_entry(self.entries@, i as int);
                }
                let _dropped = self.entries.remove(i);
            } else {
                i += 1;
            }
        }
        proof {
            lemma_absent(self.entries@, name@);
            assert(self@ =~= self@.remove(name@));
        }
    }

    /// Sets the member called `name`.
    pub fn insert(&mut self, name: &str, value: Json)
        ensures
            final(self)@ == old(self)@.insert(name@, value@),
    {
        self.remove(name);
        let ghost before = self.entries@;
        self.entries.push((name.to_owned(), value));
        proof {
            assert(self.entries@.drop_last() =~= before);
            assert(self@ =~= old(self)@.insert(name@, value@));
        }
    }
}

impl Json {
    /// The string value `chars`.
    pub fn text(chars: &str) -> (r: Json)
        ensures
            r@ == JsonModel::Text(chars@),
    {
        Json::Text(chars.to_owned())
    }

    /// The number with the JSON text `digits`.
    pub fn number(digits: &str) -> (r: Json)
        ensures
            r@ == JsonModel::Number(digits@),
    {
        Json::Number(digits.to_owned())
    }

    /// The array of the strings `parts`.
    pub fn text_array(parts: &[&str]) -> (r: Json)
        ensures
            r@ == JsonModel::Array(text_items(parts@)),
    {
        let mut items: Vec<Json> = Vec::new();
        let mut i: usize = 0;
        while i < parts.len()
            invariant
                i <= parts@.len(),
                items@.len() == i,
                forall|j: int|
                    0 <= j < i ==> (#[trigger] items@[j])@ == JsonModel::Text(parts@[j]@),
            decreases parts@.len() - i,
        {
            items.push(Json::text(parts[i]));
            i += 1;
        }
        proof {
            assert(items_model(items@) =~= text_items(parts@));
        }
        Json::Array(items)
    }

    /// The member called `name`, of an object that has one.
    pub fn get(&self, name: &str) -> (r: Option<&Json>)
        ensures
            match r {
                Some(value) => self@.get(name@) == Some(value@),
                None => self@.get(name@) is None,
            },
    {
        match self {
            Json::Object(object) => object.get(name),
            _ => None,
        }
    }

    /// The characters of a string.
    pub fn as_str(&self) -> (r: Option<&str>)
        ensures
            match r {
                Some(chars) => self@.text() == Some(chars@),
                None => self@.text() is None,
            },
    {
        match self {
            Json::Text(chars) => Some(chars.as_str()),
            _ => None,
        }
    }

    /// The items of an array.
    pub fn as_array(&self) -> (r: Option<&Vec<Json>>)
        ensures
            match r {
                Some(items) => self@.items() == Some(items_model(items@)),
                None => self@.items() is None,
            },
    {
        match self {
            Json::Array(items) => Some(items),
            _ => None,
        }
    }

    /// Whether this is an object.
    pub fn is_object(&self) -> (r: bool)
        ensures
            r == (self@ is Object),
    {
        match self {
            Json::Object(_) => true,
            _ => false,
        }
    }

    /// The characters of the member called `name`, where it is a string.
    pub fn get_str(&self, name: &str) -> (r: Option<&str>)
        ensures
            match r {
                Some(chars) => self@.member(name@).text() == Some(chars@),
                None => self@.member(name@).text() is None,
            },
    {
        match self.get(name) {
            Some(value) => value.as_str(),
            None => None,
        }
    }
}

/// The string values of `parts`.
pub open spec fn text_items(parts: Seq<&str>) -> Seq<JsonModel> {
    parts.map_values(|part: &str| JsonModel::Text(part@))
}

// ---------------------------------------------------------------------------
// Laws
// ---------------------------------------------------------------------------

/// An object gives back its members by their names, and null in place of those
/// that it does not have; no other value has members.
pub proof fn members_are_found_by_name(value: JsonModel, name: Seq<char>)
    ensures
        match value {
            JsonModel::Object(members) => members.dom().contains(name) ==> value.get(name) == Some(
                members[name],
            ) && value.member(name) == members[name],
            _ => true,
        },
        !(value matches JsonModel::Object(members) && members.dom().contains(name)) ==> value.get(
            name,
        ) is None && value.member(name) == JsonModel::Null,
{
}

/// A string has its characters and an array its items, and no other value has
/// either.
pub proof fn strings_have_text_and_arrays_items(value: JsonModel)
    ensures
        match value {
            JsonModel::Text(chars) => value.text() == Some(chars) && value.items() is None,
            JsonModel::Array(items) => value.items() == Some(items) && value.text() is None,
            _ => value.text() is None && value.items() is None,
        },
{
}

/// A value holds what stands in it: an array its items in their order.
pub proof fn values_hold_what_stands_in_them(value: Json)
    ensures
        match value {
            Json::Null => value@ == JsonModel::Null,
            Json::Bool(b) => value@ == JsonModel::Bool(b),
            Json::Number(digits) => value@ == JsonModel::Number(digits@),
            Json::Text(chars) => value@ == JsonModel::Text(chars@),
            Json::Array(items) => value@ matches JsonModel::Array(models) && models.len()
                == items@.len() && forall|i: int|
                0 <= i < models.len() ==> #[trigger] models[i] == items@[i]@,
            Json::Object(object) => value@ == JsonModel::Object(object@),
        },
{
}

/// The member of a name is the last entry of that name, and there is none of a
/// name that no entry has.
pub proof fn the_last_entry_of_a_name_counts(object: JsonObject, at: int, name: Seq<char>)
    ensures
        0 <= at < object.entries@.len() && (forall|i: int|
            at < i < object.entries@.len() ==> (#[trigger] object.entries@[i]).0@
                != object.entries@[at].0@) ==> object@.dom().contains(object.entries@[at].0@)
            && object@[object.entries@[at].0@] == object.entries@[at].1@,
        (forall|i: int|
            0 <= i < object.entries@.len() ==> (#[trigger] object.entries@[i]).0@ != name)
            ==> !object@.dom().contains(name),
{
    let entries = object.entries@;
    if 0 <= at < entries.len() && (forall|i: int|
        at < i < entries.len() ==> (#[trigger] entries[i]).0@ != entries[at].0@) {
        lemma_present(entries, at);
    }
    if forall|i: int| 0 <= i < entries.len() ==> (#[trigger] entries[i]).0@ != name {
        lemma_absent(entries, name);
    }
}

/// The string values of strings are theirs one by one, in their order.
pub proof fn strings_become_values_one_by_one(parts: Seq<&str>, i: int)
    requires
        0 <= i < parts.len(),
    ensures
        text_items(parts).len() == parts.len(),
        text_items(parts)[i] == JsonModel::Text(parts[i]@),
{
}

} // verus!
