//! The input side of the engine: a parsed JSON value and its model.

use vstd::prelude::*;

verus! {

/// A parsed JSON value, as the inference engine sees it.
///
/// The engine classifies shapes only, so the payloads of the primitive
/// kinds (the particular boolean, number or string) are not represented.
/// An object is an ordered list of key/value pairs; duplicate keys are
/// tolerated and their multiplicity is preserved.
#[derive(Debug, PartialEq, Eq)]
pub enum JsonValue {
    Null,
    Boolean,
    Number,
    String,
    Array(Vec<JsonValue>),
    Object(Vec<(String, JsonValue)>),
}

/// The mathematical model of a `JsonValue`: the same tree with `Vec`
/// replaced by `Seq` and keys by `Seq<char>`.
pub enum JsonModel {
    Null,
    Boolean,
    Number,
    String,
    Array(Seq<JsonModel>),
    Object(Seq<(Seq<char>, JsonModel)>),
}

/// The model of a `JsonValue`.
pub open spec fn json_view(v: JsonValue) -> JsonModel
    decreases v,
{
    match v {
        JsonValue::Null => JsonModel::Null,
        JsonValue::Boolean => JsonModel::Boolean,
        JsonValue::Number => JsonModel::Number,
        JsonValue::String => JsonModel::String,
        JsonValue::Array(elems) => JsonModel::Array(json_view_elems(elems@)),
        JsonValue::Object(pairs) => JsonModel::Object(json_view_pairs(pairs@)),
    }
}

/// The models of the elements of a JSON array, in order.
pub open spec fn json_view_elems(s: Seq<JsonValue>) -> Seq<JsonModel>
    decreases s,
{
    if s.len() == 0 {
        Seq::empty()
    } else {
        json_view_elems(s.drop_last()).push(json_view(s.last()))
    }
}

/// The models of the key/value pairs of a JSON object, in order.
pub open spec fn json_view_pairs(s: Seq<(String, JsonValue)>) -> Seq<(Seq<char>, JsonModel)>
    decreases s,
{
    if s.len() == 0 {
        Seq::empty()
    } else {
        json_view_pairs(s.drop_last()).push((s.last().0@, json_view(s.last().1)))
    }
}

impl View for JsonValue {
    type V = JsonModel;

    open spec fn view(&self) -> JsonModel {
        json_view(*self)
    }
}

/// `json_view_elems` maps the sequence element by element.
pub proof fn lemma_json_view_elems_index(s: Seq<JsonValue>)
    ensures
        json_view_elems(s).len() == s.len(),
        forall|i: int| 0 <= i < s.len() ==> json_view_elems(s)[i] == json_view(s[i]),
    decreases s.len(),
{
    if s.len() > 0 {
        lemma_json_view_elems_index(s.drop_last());
        assert forall|i: int| 0 <= i < s.len() implies json_view_elems(s)[i] == json_view(
            s[i],
        ) by {
            if i < s.len() - 1 {
                assert(json_view_elems(s.drop_last())[i] == json_view(s.drop_last()[i]));
            }
        }
    }
}

/// `json_view_pairs` maps the sequence pair by pair.
pub proof fn lemma_json_view_pairs_index(s: Seq<(String, JsonValue)>)
    ensures
        json_view_pairs(s).len() == s.len(),
        forall|i: int| 0 <= i < s.len() ==> json_view_pairs(s)[i] == (
            s[i].0@,
            json_view(s[i].1),
        ),
    decreases s.len(),
{
    if s.len() > 0 {
        lemma_json_view_pairs_index(s.drop_last());
        assert forall|i: int| 0 <= i < s.len() implies json_view_pairs(s)[i] == (
            s[i].0@,
            json_view(s[i].1),
        ) by {
            if i < s.len() - 1 {
                assert(json_view_pairs(s.drop_last())[i] == (
                    s.drop_last()[i].0@,
                    json_view(s.drop_last()[i].1),
                ));
            }
        }
    }
}

} // verus!
