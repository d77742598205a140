//! General properties of the inference engine, stated and proved once for
//! all inputs.

use vstd::prelude::*;
use crate::infer::{infer, infer_items, infer_props, props_add};
use crate::json::JsonModel;
use crate::key_order::{key_lt, lemma_key_lt_connex, lemma_key_lt_trans};
use crate::schema::{SchemaModel, distinct_schemas, sorted_prop_keys};
use crate::schema::{lemma_wf_props_index, lemma_wf_schema_seq_index};
use crate::schema::{wf_props, wf_schema, wf_schema_seq};

verus! {

/// Determinism: the schema of a value is a function of the value alone;
/// the same input always yields structurally identical output.
pub proof fn lemma_infer_deterministic(a: JsonModel, b: JsonModel)
    requires
        a == b,
    ensures
        infer(a) == infer(b),
{
}

/// Dedup idempotence: an array whose elements are `[x, x]` has the same
/// schema as an array whose single element is `[x]`, for any value `x`.
pub proof fn lemma_dedup_idempotent(x: JsonModel)
    ensures
        infer(JsonModel::Array(seq![x, x])) == infer(JsonModel::Array(seq![x])),
{
    let s1 = seq![x];
    let s2 = seq![x, x];
    assert(s1.drop_last() =~= Seq::<JsonModel>::empty());
    assert(s2.drop_last() =~= s1);
    assert(infer_items(s1) == Seq::<SchemaModel>::empty().push(infer(x))) by {
        reveal_with_fuel(infer_items, 2);
    }
    assert(infer_items(s1)[0] == infer(x));
    assert(infer_items(s1).contains(infer(x)));
    assert(infer_items(s2) == infer_items(s1));
}

/// No duplicates: the item sequence of an inferred array schema holds no
/// two structurally equal entries.
pub proof fn lemma_items_distinct(elems: Seq<JsonModel>)
    ensures
        distinct_schemas(infer_items(elems)),
    decreases elems.len(),
{
    if elems.len() > 0 {
        lemma_items_distinct(elems.drop_last());
        let prev = infer_items(elems.drop_last());
        let s = infer(elems.last());
        if !prev.contains(s) {
            assert forall|i: int, j: int|
                0 <= i < j < prev.push(s).len() implies prev.push(s)[i] != prev.push(s)[j] by {
                if j < prev.len() {
                    assert(prev.push(s)[i] == prev[i] && prev.push(s)[j] == prev[j]);
                } else {
                    assert(prev.push(s)[i] == prev[i] && prev.push(s)[j] == s);
                    if prev[i] == s {
                        assert(prev.contains(s));
                    }
                }
            }
        }
    }
}

/// First-seen membership: a schema appears among an array's inferred
/// items exactly when some element of the array infers to it.
pub proof fn lemma_items_membership(elems: Seq<JsonModel>, s: SchemaModel)
    ensures
        infer_items(elems).contains(s) <==> (exists|k: int|
            0 <= k < elems.len() && infer(elems[k]) == s),
    decreases elems.len(),
{
    if elems.len() > 0 {
        lemma_items_membership(elems.drop_last(), s);
        let prev = infer_items(elems.drop_last());
        let m = infer(elems.last());
        assert(forall|k: int|
            0 <= k < elems.len() - 1 ==> elems.drop_last()[k] == elems[k]);
        if prev.contains(m) {
            assert(infer_items(elems) == prev);
            if infer_items(elems).contains(s) {
                let k = choose|k: int|
                    0 <= k < elems.len() - 1 && infer(elems.drop_last()[k]) == s;
                assert(infer(elems[k]) == s);
            }
            if exists|k: int| 0 <= k < elems.len() && infer(elems[k]) == s {
                let k = choose|k: int| 0 <= k < elems.len() && infer(elems[k]) == s;
                if k == elems.len() - 1 {
                    assert(prev.contains(s));
                } else {
                    assert(infer(elems.drop_last()[k]) == s);
                    assert(prev.contains(s));
                }
            }
        } else {
            assert(infer_items(elems) == prev.push(m));
            if infer_items(elems).contains(s) {
                let i = choose|i: int|
                    0 <= i < prev.push(m).len() && prev.push(m)[i] == s;
                if i < prev.len() {
                    assert(prev[i] == s);
                    assert(prev.contains(s));
                    let k = choose|k: int|
                        0 <= k < elems.len() - 1 && infer(elems.drop_last()[k]) == s;
                    assert(infer(elems[k]) == s);
                } else {
                    assert(infer(elems[elems.len() - 1]) == s);
                }
            }
            if exists|k: int| 0 <= k < elems.len() && infer(elems[k]) == s {
                let k = choose|k: int| 0 <= k < elems.len() && infer(elems[k]) == s;
                if k == elems.len() - 1 {
                    assert(prev.push(m)[prev.len() as int] == s);
                    assert(infer_items(elems).contains(s));
                } else {
                    assert(infer(elems.drop_last()[k]) == s);
                    assert(prev.contains(s));
                    let i = choose|i: int| 0 <= i < prev.len() && prev[i] == s;
                    assert(prev.push(m)[i] == s);
                    assert(infer_items(elems).contains(s));
                }
            }
        }
    }
}

/// First-seen order is stable: the items inferred from a prefix of an
/// array stand unchanged, in the same positions, at the front of the
/// items inferred from the whole array; scanning further elements only
/// appends.
pub proof fn lemma_items_order_stable(elems: Seq<JsonModel>, i: int)
    requires
        0 <= i <= elems.len(),
    ensures
        infer_items(elems.take(i)).is_prefix_of(infer_items(elems)),
    decreases elems.len(),
{
    if i == elems.len() {
        assert(elems.take(i) =~= elems);
        assert(infer_items(elems).subrange(0, infer_items(elems).len() as int) =~= infer_items(
            elems,
        ));
    } else {
        lemma_items_order_stable(elems.drop_last(), i);
        assert(elems.drop_last().take(i) =~= elems.take(i));
        let part = infer_items(elems.take(i));
        let prev = infer_items(elems.drop_last());
        let whole = infer_items(elems);
        assert(part =~= prev.subrange(0, part.len() as int));
        if !prev.contains(infer(elems.last())) {
            assert(forall|k: int| 0 <= k < prev.len() ==> whole[k] == prev[k]);
            assert(part =~= whole.subrange(0, part.len() as int));
        }
    }
}

/// `props_add` preserves the object invariant: keys stay sorted, every
/// key keeps at least one schema, all schemas stay well-formed, and every
/// key of the result is `key` or a key that was already present.
proof fn lemma_props_add_wf(
    props: Seq<(Seq<char>, Seq<SchemaModel>)>,
    key: Seq<char>,
    m: SchemaModel,
)
    requires
        sorted_prop_keys(props),
        forall|i: int| 0 <= i < props.len() ==> props[i].1.len() > 0,
        wf_props(props),
        wf_schema(m),
    ensures
        sorted_prop_keys(props_add(props, key, m)),
        forall|i: int|
            0 <= i < props_add(props, key, m).len() ==> props_add(props, key, m)[i].1.len() > 0,
        wf_props(props_add(props, key, m)),
        forall|j: int|
            0 <= j < props_add(props, key, m).len() ==> props_add(props, key, m)[j].0 == key
                || (exists|i: int|
                0 <= i < props.len() && props[i].0 == props_add(props, key, m)[j].0),
    decreases props.len(),
{
    lemma_wf_props_index(props);
    let r = props_add(props, key, m);
    if props.len() == 0 {
        assert(r[0].1 == seq![m]);
        assert(wf_schema_seq(seq![m])) by {
            reveal_with_fuel(wf_schema_seq, 2);
            assert(seq![m].drop_last() =~= Seq::<SchemaModel>::empty());
        }
        lemma_wf_props_index(r);
    } else if props[0].0 == key {
        assert(forall|j: int| 1 <= j < r.len() ==> r[j] == props[j]);
        assert(forall|j: int| 0 <= j < r.len() ==> r[j].0 == props[j].0);
        lemma_wf_schema_seq_index(props[0].1);
        lemma_wf_schema_seq_index(props[0].1.push(m));
        lemma_wf_props_index(r);
    } else if key_lt(key, props[0].0) {
        assert(r[0] == (key, seq![m]));
        assert(forall|j: int| 1 <= j < r.len() ==> r[j] == props[j - 1]);
        assert forall|i: int, j: int| 0 <= i < j < r.len() implies key_lt(r[i].0, r[j].0) by {
            if i == 0 && j >= 2 {
                lemma_key_lt_trans(key, props[0].0, props[j - 1].0);
            }
        }
        assert(wf_schema_seq(seq![m])) by {
            reveal_with_fuel(wf_schema_seq, 2);
            assert(seq![m].drop_last() =~= Seq::<SchemaModel>::empty());
        }
        lemma_wf_props_index(r);
    } else {
        lemma_key_lt_connex(key, props[0].0);
        assert(key_lt(props[0].0, key));
        let tail = props.drop_first();
        assert(forall|j: int| 0 <= j < tail.len() ==> tail[j] == props[j + 1]);
        lemma_wf_props_index(tail);
        lemma_props_add_wf(tail, key, m);
        let rt = props_add(tail, key, m);
        assert(r == seq![props[0]] + rt);
        assert(r[0] == props[0]);
        assert(forall|j: int| 1 <= j < r.len() ==> r[j] == rt[j - 1]);
        assert forall|i: int, j: int| 0 <= i < j < r.len() implies key_lt(r[i].0, r[j].0) by {
            if i == 0 {
                if rt[j - 1].0 == key {
                    assert(key_lt(props[0].0, key));
                } else {
                    let i2 = choose|i2: int| 0 <= i2 < tail.len() && tail[i2].0 == rt[j - 1].0;
                    assert(key_lt(props[0].0, props[i2 + 1].0));
                }
            }
        }
        lemma_wf_props_index(rt);
        lemma_wf_props_index(r);
        assert forall|j: int|
            0 <= j < r.len() implies r[j].0 == key || (exists|i: int|
            0 <= i < props.len() && props[i].0 == r[j].0) by {
            if j == 0 {
                assert(props[0].0 == r[0].0);
            } else if rt[j - 1].0 != key {
                let i2 = choose|i2: int| 0 <= i2 < tail.len() && tail[i2].0 == rt[j - 1].0;
                assert(props[i2 + 1].0 == r[j].0);
            }
        }
    }
}

/// Every inferred schema is well-formed: array items are deduplicated,
/// object properties are sorted by key and each key holds at least one
/// schema, recursively at every level.
pub proof fn lemma_infer_wf(v: JsonModel)
    ensures
        wf_schema(infer(v)),
    decreases v,
{
    match v {
        JsonModel::Array(elems) => {
            lemma_items_distinct(elems);
            lemma_infer_items_wf(elems);
        },
        JsonModel::Object(pairs) => {
            lemma_infer_props_wf(pairs);
        },
        _ => {},
    }
}

/// Every schema among an array's inferred items is well-formed.
pub proof fn lemma_infer_items_wf(elems: Seq<JsonModel>)
    ensures
        wf_schema_seq(infer_items(elems)),
    decreases elems,
{
    if elems.len() > 0 {
        lemma_infer_items_wf(elems.drop_last());
        lemma_infer_wf(elems.last());
        let prev = infer_items(elems.drop_last());
        let s = infer(elems.last());
        if !prev.contains(s) {
            assert(prev.push(s).drop_last() =~= prev);
        }
    }
}

/// An object's inferred properties satisfy the object invariant.
pub proof fn lemma_infer_props_wf(pairs: Seq<(Seq<char>, JsonModel)>)
    ensures
        sorted_prop_keys(infer_props(pairs)),
        forall|i: int| 0 <= i < infer_props(pairs).len() ==> infer_props(pairs)[i].1.len() > 0,
        wf_props(infer_props(pairs)),
    decreases pairs,
{
    if pairs.len() > 0 {
        lemma_infer_props_wf(pairs.drop_last());
        lemma_infer_wf(pairs.last().1);
        lemma_props_add_wf(infer_props(pairs.drop_last()), pairs.last().0, infer(pairs.last().1));
    }
}

} // verus!

