//! Reading JSON text with `serde_json`.

use vstd::prelude::*;
use crate::json::{Json, JsonModel, JsonObject};
use crate::json;

verus! {

/// `serde_json::Value`, which is opaque here: [`value_model`] says what a value
/// of it holds.
#[verifier::external_type_specification]
#[verifier::external_body]
pub struct ExValue(serde_json::Value);

/// `serde_json::Error`, which is only carried.
#[verifier::external_type_specification]
#[verifier::external_body]
pub struct ExError(serde_json::Error);

/// What a `serde_json::Value` holds.
pub uninterp spec fn value_model(value: serde_json::Value) -> JsonModel;

/// What `serde_json::from_str` reads from `chars` as a `serde_json::Value`;
/// `None` where it gives an error.
pub uninterp spec fn read_json(chars: Seq<char>) -> Option<JsonModel>;

/// The outermost layer of a `serde_json::Value`.
pub enum Layer {
    Null,
    Bool(bool),
    Number(String),
    Text(String),
    Array(Vec<serde_json::Value>),
    Object(Vec<(String, serde_json::Value)>),
}

impl Layer {
    /// What the value with this outermost layer holds.
    pub open spec fn model(self) -> JsonModel {
        match self {
            Layer::Null => JsonModel::Null,
            Layer::Bool(b) => JsonModel::Bool(b),
            Layer::Number(digits) => JsonModel::Number(digits@),
            Layer::Text(chars) => JsonModel::Text(chars@),
            Layer::Array(items) => JsonModel::Array(
                items@.map_values(|item: serde_json::Value| value_model(item)),
            ),
            Layer::Object(entries) => JsonModel::Object(members_model(entries@)),
        }
    }

    /// Whether no two members of an object have one name.
    pub open spec fn names_differ(self) -> bool {
        self matches Layer::Object(entries) ==> forall|i: int, j: int|
            0 <= i < j < entries@.len() ==> (#[trigger] entries@[i]).0@ != (#[trigger] entries@[j]).0@
    }
}

/// What the members of an object hold, by their names.
pub open spec fn members_model(entries: Seq<(String, serde_json::Value)>) -> Map<
    Seq<char>,
    JsonModel,
>
    decreases entries.len(),
{
    if entries.len() == 0 {
        Map::empty()
    } else {
        members_model(entries.drop_last()).insert(
            entries.last().0@,
            value_model(entries.last().1),
        )
    }
}

/// Calls `serde_json::from_str` for a `serde_json::Value`. Claimed of it: what
/// it returns, a value or an error, depends on the text alone, and
/// [`read_json`] names it.
#[verifier::external_body]
fn value_from_str(chars: &str) -> (r: Result<serde_json::Value, serde_json::Error>)
    ensures
        match r {
            Ok(value) => read_json(chars@) == Some(value_model(value)),
            Err(_) => read_json(chars@) is None,
        },
{
    serde_json::from_str(chars)
}

/// Takes a `serde_json::Value` apart, one layer deep, by its variants; the text
/// of a number is what `serde_json::Number` displays, and the members of an
/// object are what `serde_json::Map` hands out. Claimed of them: the layer holds
/// what the value held, and a `serde_json::Map` has each name once.
#[verifier::external_body]
fn open_value(value: serde_json::Value) -> (r: Layer)
    ensures
        r.model() == value_model(value),
        r.names_differ(),
{
    match value {
        serde_json::Value::Null => Layer::Null,
        serde_json::Value::Bool(b) => Layer::Bool(b),
        serde_json::Value::Number(number) => Layer::Number(number.to_string()),
        serde_json::Value::String(chars) => Layer::Text(chars),
        serde_json::Value::Array(items) => Layer::Array(items),
        serde_json::Value::Object(members) => Layer::Object(members.into_iter().collect()),
    }
}

proof fn lemma_member_at(entries: Seq<(String, serde_json::Value)>, at: int)
    requires
        0 <= at < entries.len(),
        forall|i: int, j: int|
            0 <= i < j < entries.len() ==> (#[trigger] entries[i]).0@ != (#[trigger] entries[j]).0@,
    ensures
        members_model(entries).dom().contains(entries[at].0@),
        members_model(entries)[entries[at].0@] == value_model(entries[at].1),
    decreases entries.len(),
{
    if at < entries.len() - 1 {
        assert(entries[at].0@ != entries[entries.len() - 1].0@);
        let shorter = entries.drop_last();
        assert forall|i: int, j: int| 0 <= i < j < shorter.len() implies (#[trigger] shorter[i]).0@
            != (#[trigger] shorter[j]).0@ by {
            assert(entries[i].0@ != entries[j].0@);
        }
        lemma_member_at(shorter, at);
    }
}

proof fn lemma_members_finite(entries: Seq<(String, serde_json::Value)>)
    ensures
        members_model(entries).dom().finite(),
    decreases entries.len(),
{
    if entries.len() > 0 {
        lemma_members_finite(entries.drop_last());
    }
}

/// Turns a `serde_json::Value` into a [`Json`].
pub fn json_from_value(value: serde_json::Value) -> (r: Json)
    ensures
        r@ == value_model(value),
    decreases value_model(value), 1nat,
{
    let ghost whole = value_model(value);
    match open_value(value) {
        Layer::Null => Json::Null,
        Layer::Bool(b) => Json::Bool(b),
        Layer::Number(digits) => Json::Number(digits),
        Layer::Text(chars) => Json::Text(chars),
        Layer::Array(items) => Json::Array(json_items(items, Ghost(whole))),
        Layer::Object(entries) => Json::Object(json_members(entries, Ghost(whole))),
    }
}

/// Turns the items of an array into [`Json`].
fn json_items(items: Vec<serde_json::Value>, Ghost(whole): Ghost<JsonModel>) -> (r: Vec<Json>)
    requires
        Layer::Array(items).model() == whole,
    ensures
        JsonModel::Array(json::items_model(r@)) == whole,
    decreases whole, 0nat,
{
    let ghost models = whole->Array_0;
    let mut out: Vec<Json> = Vec::new();
    for item in iter: items
        invariant
            iter.seq() == items@,
            out@.len() == iter.index(),
            Layer::Array(items).model() == whole,
            whole == JsonModel::Array(models),
            forall|i: int| 0 <= i < out@.len() ==> (#[trigger] out@[i])@ == models[i],
    {
        assert(value_model(item) == models[iter.index()]);
        assert(decreases_to!(whole => models[iter.index()])) by {
            assert(decreases_to!(whole => whole->Array_0));
            assert(decreases_to!(models => models[iter.index()]));
        }
        out.push(json_from_value(item));
    }
    proof {
        assert(json::items_model(out@) =~= models);
    }
    out
}

/// Turns the members of an object into [`Json`].
fn json_members(
    entries: Vec<(String, serde_json::Value)>,
    Ghost(whole): Ghost<JsonModel>,
) -> (r: JsonObject)
    requires
        Layer::Object(entries).model() == whole,
        Layer::Object(entries).names_differ(),
    ensures
        JsonModel::Object(r@) == whole,
    decreases whole, 0nat,
{
    let ghost models = whole->Object_0;
    let mut out: Vec<(String, Json)> = Vec::new();
    for entry in iter: entries
        invariant
            iter.seq() == entries@,
            out@.len() == iter.index(),
            Layer::Object(entries).model() == whole,
            Layer::Object(entries).names_differ(),
            whole == JsonModel::Object(models),
            json::entries_model(out@) == members_model(entries@.take(iter.index())),
    {
        let ghost n = iter.index();
        let ghost done = out@;
        let (name, value) = entry;
        proof {
            lemma_member_at(entries@, n);
            lemma_members_finite(entries@);
            assert(decreases_to!(whole => models[name@])) by {
                assert(decreases_to!(whole => whole->Object_0));
                assert(decreases_to!(models => models[name@]));
            }
        }
        out.push((name, json_from_value(value)));
        proof {
            assert(out@.drop_last() =~= done);
            assert(entries@.take(n + 1).drop_last() =~= entries@.take(n));
        }
    }
    proof {
        assert(entries@.take(entries@.len() as int) =~= entries@);
    }
    JsonObject { entries: out }
}

/// Reads JSON text.
pub fn parse_json(chars: &str) -> (r: Result<Json, serde_json::Error>)
    ensures
        match r {
            Ok(value) => read_json(chars@) == Some(value@),
            Err(_) => read_json(chars@) is None,
        },
{
    match value_from_str(chars) {
        Ok(value) => Ok(json_from_value(value)),
        Err(error) => Err(error),
    }
}

/// A layer holds what stands in it: an array its items in their order, and an
/// object its members by their names.
pub proof fn layers_hold_what_stands_in_them(layer: Layer)
    requires
        layer.names_differ(),
    ensures
        match layer {
            Layer::Null => layer.model() == JsonModel::Null,
            Layer::Bool(b) => layer.model() == JsonModel::Bool(b),
            Layer::Number(digits) => layer.model() == JsonModel::Number(digits@),
            Layer::Text(chars) => layer.model() == JsonModel::Text(chars@),
            Layer::Array(items) => layer.model() matches JsonModel::Array(models) && models.len()
                == items@.len() && forall|i: int|
                0 <= i < models.len() ==> #[trigger] models[i] == value_model(items@[i]),
            Layer::Object(entries) => layer.model() matches JsonModel::Object(members) && (forall|
                i: int,
            |
                0 <= i < entries@.len() ==> members.dom().contains((#[trigger] entries@[i]).0@)
                    && members[entries@[i].0@] == value_model(entries@[i].1)),
        },
{
    if let Layer::Object(entries) = layer {
        assert forall|i: int| 0 <= i < entries@.len() implies members_model(
            entries@,
        ).dom().contains((#[trigger] entries@[i]).0@) && members_model(entries@)[entries@[i].0@]
            == value_model(entries@[i].1) by {
            lemma_member_at(entries@, i);
        }
    }
}

} // verus!
