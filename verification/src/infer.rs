//! The schema inference engine.
//!
//! `infer` is the mathematical definition of the engine; `discover_schema`
//! is the executable that is proved to compute it.

use vstd::prelude::*;
use crate::json::{JsonModel, JsonValue, json_view_elems, json_view_pairs};
use crate::json::{lemma_json_view_elems_index, lemma_json_view_pairs_index};
use crate::key_order::{key_lt, key_lt_exec};
use crate::schema::{ArraySchema, ObjectSchema, Schema, SchemaModel};
use crate::schema::{schema_view, schema_view_props, schema_view_seq};
use crate::schema::{lemma_schema_view_props_index, lemma_schema_view_seq_index, schema_eq};

verus! {

/// The schema of a JSON value: primitives map to their own kind; an array
/// maps to the deduplicated schemas of its elements; an object maps to
/// its properties' schemas grouped by key.
pub open spec fn infer(v: JsonModel) -> SchemaModel
    decreases v,
{
    match v {
        JsonModel::Null => SchemaModel::Null,
        JsonModel::Boolean => SchemaModel::Boolean,
        JsonModel::Number => SchemaModel::Number,
        JsonModel::String => SchemaModel::String,
        JsonModel::Array(elems) => SchemaModel::Array(infer_items(elems)),
        JsonModel::Object(pairs) => SchemaModel::Object(infer_props(pairs)),
    }
}

/// The item schemas of an array: each element's schema in order, a newly
/// inferred schema appended only if no structurally equal one is present.
pub open spec fn infer_items(elems: Seq<JsonModel>) -> Seq<SchemaModel>
    decreases elems,
{
    if elems.len() == 0 {
        Seq::empty()
    } else {
        let prev = infer_items(elems.drop_last());
        let s = infer(elems.last());
        if prev.contains(s) {
            prev
        } else {
            prev.push(s)
        }
    }
}

/// The property schemas of an object: each pair's schema in order,
/// recorded under its key.
pub open spec fn infer_props(pairs: Seq<(Seq<char>, JsonModel)>) -> Seq<
    (Seq<char>, Seq<SchemaModel>),
>
    decreases pairs,
{
    if pairs.len() == 0 {
        Seq::empty()
    } else {
        let prev = infer_props(pairs.drop_last());
        let s = infer(pairs.last().1);
        props_add(prev, pairs.last().0, s)
    }
}

/// Records one observed schema `s` under `key` in a key-sorted property
/// list: appended to the key's schemas if the key is present, inserted
/// as a new single-schema entry at its sorted position otherwise.
pub open spec fn props_add(
    props: Seq<(Seq<char>, Seq<SchemaModel>)>,
    key: Seq<char>,
    s: SchemaModel,
) -> Seq<(Seq<char>, Seq<SchemaModel>)>
    decreases props.len(),
{
    if props.len() == 0 {
        seq![(key, seq![s])]
    } else if props[0].0 == key {
        seq![(props[0].0, props[0].1.push(s))] + props.drop_first()
    } else if key_lt(key, props[0].0) {
        seq![(key, seq![s])] + props
    } else {
        seq![props[0]] + props_add(props.drop_first(), key, s)
    }
}

/// Scanning past entries whose key neither equals nor exceeds `key`
/// leaves them in place.
proof fn lemma_props_add_skip(
    props: Seq<(Seq<char>, Seq<SchemaModel>)>,
    key: Seq<char>,
    s: SchemaModel,
    i: int,
)
    requires
        0 <= i <= props.len(),
        forall|j: int| 0 <= j < i ==> props[j].0 != key && !key_lt(key, props[j].0),
    ensures
        props_add(props, key, s) == props.take(i) + props_add(props.skip(i), key, s),
    decreases i,
{
    if i == 0 {
        assert(props.skip(0) =~= props);
        assert(props.take(0) + props_add(props, key, s) =~= props_add(props, key, s));
    } else {
        assert(props[0].0 != key && !key_lt(key, props[0].0));
        lemma_props_add_skip(props.drop_first(), key, s, i - 1);
        assert(props.drop_first().take(i - 1) =~= props.take(i).drop_first());
        assert(props.drop_first().skip(i - 1) =~= props.skip(i));
        assert(seq![props[0]] + (props.take(i).drop_first() + props_add(props.skip(i), key, s))
            =~= props.take(i) + props_add(props.skip(i), key, s));
    }
}

/// Whether a structurally equal schema is already among `items`.
fn contains_schema(items: &Vec<Schema>, s: &Schema) -> (r: bool)
    ensures
        r == schema_view_seq(items@).contains(s@),
{
    proof {
        lemma_schema_view_seq_index(items@);
    }
    let n = items.len();
    let mut i: usize = 0;
    while i < n
        invariant
            i <= n,
            n == items@.len(),
            schema_view_seq(items@).len() == n,
            forall|j: int| 0 <= j < n ==> schema_view_seq(items@)[j] == schema_view(items@[j]),
            forall|j: int| 0 <= j < i ==> schema_view_seq(items@)[j] != s@,
        decreases n - i,
    {
        if schema_eq(&items[i], s) {
            assert(schema_view_seq(items@)[i as int] == s@);
            return true;
        }
        i = i + 1;
    }
    proof {
        if schema_view_seq(items@).contains(s@) {
            let j = choose|j: int|
                0 <= j < schema_view_seq(items@).len() && schema_view_seq(items@)[j] == s@;
            assert(false);
        }
    }
    false
}

/// Records one inferred schema under its key in the sorted property list,
/// as `props_add` describes.
#[verifier::loop_isolation(false)]
fn insert_prop(props: &mut Vec<(String, Vec<Schema>)>, key: String, s: Schema)
    ensures
        schema_view_props(final(props)@) == props_add(
            schema_view_props(old(props)@),
            key@,
            s@,
        ),
{
    let ghost p0: Seq<(Seq<char>, Seq<SchemaModel>)> = schema_view_props(props@);
    let ghost keym: Seq<char> = key@;
    let ghost sm: SchemaModel = s@;
    proof {
        lemma_schema_view_props_index(props@);
    }
    let n = props.len();
    let mut i: usize = 0;
    while i < n
        invariant
            i <= n,
            props@.len() == n,
            p0 == schema_view_props(props@),
            forall|j: int| 0 <= j < n ==> p0[j] == (props@[j].0@, schema_view_seq(props@[j].1@)),
            forall|j: int| 0 <= j < i ==> p0[j].0 != keym && !key_lt(keym, p0[j].0),
        decreases n - i,
    {
        let keys_equal = props[i].0 == key;
        if keys_equal {
            let ghost before = props@;
            let (k0, mut schemas) = props.remove(i);
            let ghost schemas0 = schemas@;
            schemas.push(s);
            let ghost schemas1 = schemas@;
            props.insert(i, (k0, schemas));
            proof {
                assert(schemas1.drop_last() =~= schemas0);
                assert(schema_view_seq(schemas1) == schema_view_seq(schemas0).push(sm));
                assert(props@.len() == n);
                assert(forall|j: int| 0 <= j < n && j != i ==> props@[j] == before[j]);
                assert(props@[i as int].0@ == p0[i as int].0);
                assert(props@[i as int].1@ == schemas1);
                lemma_props_add_skip(p0, keym, sm, i as int);
                assert(p0.skip(i as int)[0] == p0[i as int]);
                assert(p0[i as int].0 == keym);
                assert(props_add(p0.skip(i as int), keym, sm) == seq![
                    (p0[i as int].0, p0[i as int].1.push(sm)),
                ] + p0.skip(i as int).drop_first());
                assert(p0.skip(i as int).drop_first() =~= p0.skip(i + 1));
                lemma_schema_view_props_index(props@);
                assert(schema_view_props(props@) =~= p0.take(i as int) + (seq![
                    (p0[i as int].0, p0[i as int].1.push(sm)),
                ] + p0.skip(i + 1)));
            }
            return ;
        }
        let key_less = key_lt_exec(key.as_str(), props[i].0.as_str());
        if key_less {
            let ghost before = props@;
            let mut schemas: Vec<Schema> = Vec::new();
            schemas.push(s);
            let ghost schemas1 = schemas@;
            props.insert(i, (key, schemas));
            proof {
                reveal_with_fuel(schema_view_seq, 2);
                assert(schemas1.drop_last() =~= Seq::<Schema>::empty());
                assert(schema_view_seq(schemas1) =~= seq![sm]);
                assert(props@.len() == n + 1);
                assert(forall|j: int| 0 <= j < i ==> props@[j] == before[j]);
                assert(forall|j: int| i < j < n + 1 ==> props@[j] == before[j - 1]);
                assert(props@[i as int].0@ == keym);
                assert(props@[i as int].1@ == schemas1);
                lemma_props_add_skip(p0, keym, sm, i as int);
                assert(p0.skip(i as int)[0] == p0[i as int]);
                assert(key_lt(keym, p0[i as int].0));
                assert(props_add(p0.skip(i as int), keym, sm) == seq![(keym, seq![sm])]
                    + p0.skip(i as int));
                lemma_schema_view_props_index(props@);
                assert(schema_view_props(props@) =~= p0.take(i as int) + (seq![
                    (keym, seq![sm]),
                ] + p0.skip(i as int)));
            }
            return ;
        }
        i = i + 1;
    }
    let ghost before = props@;
    let mut schemas: Vec<Schema> = Vec::new();
    schemas.push(s);
    let ghost schemas1 = schemas@;
    props.push((key, schemas));
    proof {
        reveal_with_fuel(schema_view_seq, 2);
        assert(schemas1.drop_last() =~= Seq::<Schema>::empty());
        assert(schema_view_seq(schemas1) =~= seq![sm]);
        assert(props@.drop_last() =~= before);
        assert(props@.last().0@ == keym);
        assert(props@.last().1@ == schemas1);
        lemma_props_add_skip(p0, keym, sm, n as int);
        assert(p0.skip(n as int).len() == 0);
        assert(props_add(p0.skip(n as int), keym, sm) == seq![(keym, seq![sm])]);
        lemma_schema_view_props_index(props@);
        assert(schema_view_props(props@) =~= p0.take(n as int) + seq![(keym, seq![sm])]);
    }
}

/// Discovers the schema of a JSON value: the executable form of `infer`.
#[verifier::loop_isolation(false)]
pub fn discover_schema(v: &JsonValue) -> (s: Schema)
    ensures
        s@ == infer(v@),
    decreases *v,
{
    match v {
        JsonValue::Null => Schema::Null,
        JsonValue::Boolean => Schema::Boolean,
        JsonValue::Number => Schema::Number,
        JsonValue::String => Schema::String,
        JsonValue::Array(elems) => {
            let ghost em: Seq<JsonModel> = json_view_elems(elems@);
            proof {
                lemma_json_view_elems_index(elems@);
            }
            let mut items: Vec<Schema> = Vec::new();
            let n = elems.len();
            let mut i: usize = 0;
            while i < n
                invariant
                    i <= n,
                    schema_view_seq(items@) == infer_items(em.take(i as int)),
                decreases n - i,
            {
                let ghost items_before = items@;
                let item_schema = discover_schema(&elems[i]);
                let ghost m = item_schema@;
                if !contains_schema(&items, &item_schema) {
                    items.push(item_schema);
                    proof {
                        assert(schema_view_seq(items@) =~= schema_view_seq(
                            items_before,
                        ).push(m)) by {
                            assert(items@.drop_last() =~= items_before);
                        }
                    }
                }
                proof {
                    assert(em.take(i + 1).drop_last() =~= em.take(i as int));
                    assert(em.take(i + 1).last() == em[i as int]);
                }
                i = i + 1;
            }
            proof {
                assert(em.take(n as int) =~= em);
            }
            Schema::Array(ArraySchema { items })
        },
        JsonValue::Object(pairs) => {
            let ghost pm: Seq<(Seq<char>, JsonModel)> = json_view_pairs(pairs@);
            proof {
                lemma_json_view_pairs_index(pairs@);
            }
            let mut properties: Vec<(String, Vec<Schema>)> = Vec::new();
            let n = pairs.len();
            let mut i: usize = 0;
            while i < n
                invariant
                    i <= n,
                    schema_view_props(properties@) == infer_props(pm.take(i as int)),
                decreases n - i,
            {
                let value_schema = discover_schema(&pairs[i].1);
                let key = pairs[i].0.clone();
                let ghost m = value_schema@;
                let ghost keym = key@;
                insert_prop(&mut properties, key, value_schema);
                proof {
                    assert(pm.take(i + 1).drop_last() =~= pm.take(i as int));
                    assert(pm.take(i + 1).last() == pm[i as int]);
                    assert(infer_props(pm.take(i + 1)) == props_add(
                        infer_props(pm.take(i as int)),
                        keym,
                        m,
                    ));
                }
                i = i + 1;
            }
            proof {
                assert(pm.take(n as int) =~= pm);
            }
            Schema::Object(ObjectSchema { properties })
        },
    }
}

} // verus!

