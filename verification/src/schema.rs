//! The output side of the engine: inferred schemas and their model.

use vstd::prelude::*;
use crate::key_order::key_lt;

verus! {

/// The inferred structural description of a JSON value's shape.
///
/// A closed variant type mirroring the six JSON shape categories; the
/// composite cases record the distinct sub-shapes observed, not the data.
#[derive(Debug, PartialEq, Eq)]
pub enum Schema {
    Null,
    Boolean,
    Number,
    String,
    Array(ArraySchema),
    Object(ObjectSchema),
}

/// The distinct shapes observed among an array's elements, deduplicated
/// by structural equality, in first-occurrence order.
#[derive(Debug, PartialEq, Eq)]
pub struct ArraySchema {
    pub items: Vec<Schema>,
}

/// A mapping from property name to the schemas seen for that name within
/// one object node, ordered by key. A key maps to more than one schema
/// only when a lenient input source supplied the key more than once.
#[derive(Debug, PartialEq, Eq)]
pub struct ObjectSchema {
    pub properties: Vec<(String, Vec<Schema>)>,
}

/// The mathematical model of a `Schema`.
pub enum SchemaModel {
    Null,
    Boolean,
    Number,
    String,
    Array(Seq<SchemaModel>),
    Object(Seq<(Seq<char>, Seq<SchemaModel>)>),
}

/// The model of a `Schema`.
pub open spec fn schema_view(s: Schema) -> SchemaModel
    decreases s,
{
    match s {
        Schema::Null => SchemaModel::Null,
        Schema::Boolean => SchemaModel::Boolean,
        Schema::Number => SchemaModel::Number,
        Schema::String => SchemaModel::String,
        Schema::Array(a) => SchemaModel::Array(schema_view_seq(a.items@)),
        Schema::Object(o) => SchemaModel::Object(schema_view_props(o.properties@)),
    }
}

/// The models of a sequence of schemas, in order.
pub open spec fn schema_view_seq(s: Seq<Schema>) -> Seq<SchemaModel>
    decreases s,
{
    if s.len() == 0 {
        Seq::empty()
    } else {
        schema_view_seq(s.drop_last()).push(schema_view(s.last()))
    }
}

/// The models of a sequence of properties, in order.
pub open spec fn schema_view_props(s: Seq<(String, Vec<Schema>)>) -> Seq<
    (Seq<char>, Seq<SchemaModel>),
>
    decreases s,
{
    if s.len() == 0 {
        Seq::empty()
    } else {
        schema_view_props(s.drop_last()).push(
            (s.last().0@, schema_view_seq(s.last().1@)),
        )
    }
}

impl View for Schema {
    type V = SchemaModel;

    open spec fn view(&self) -> SchemaModel {
        schema_view(*self)
    }
}

impl View for ArraySchema {
    type V = Seq<SchemaModel>;

    open spec fn view(&self) -> Seq<SchemaModel> {
        schema_view_seq(self.items@)
    }
}

impl View for ObjectSchema {
    type V = Seq<(Seq<char>, Seq<SchemaModel>)>;

    open spec fn view(&self) -> Seq<(Seq<char>, Seq<SchemaModel>)> {
        schema_view_props(self.properties@)
    }
}

/// `schema_view_seq` maps the sequence element by element.
pub proof fn lemma_schema_view_seq_index(s: Seq<Schema>)
    ensures
        schema_view_seq(s).len() == s.len(),
        forall|i: int| 0 <= i < s.len() ==> schema_view_seq(s)[i] == schema_view(s[i]),
    decreases s.len(),
{
    if s.len() > 0 {
        lemma_schema_view_seq_index(s.drop_last());
        assert forall|i: int| 0 <= i < s.len() implies schema_view_seq(s)[i] == schema_view(
            s[i],
        ) by {
            if i < s.len() - 1 {
                assert(schema_view_seq(s.drop_last())[i] == schema_view(s.drop_last()[i]));
            }
        }
    }
}

/// `schema_view_props` maps the sequence property by property.
pub proof fn lemma_schema_view_props_index(s: Seq<(String, Vec<Schema>)>)
    ensures
        schema_view_props(s).len() == s.len(),
        forall|i: int| 0 <= i < s.len() ==> schema_view_props(s)[i] == (
            s[i].0@,
            schema_view_seq(s[i].1@),
        ),
    decreases s.len(),
{
    if s.len() > 0 {
        lemma_schema_view_props_index(s.drop_last());
        assert forall|i: int| 0 <= i < s.len() implies schema_view_props(s)[i] == (
            s[i].0@,
            schema_view_seq(s[i].1@),
        ) by {
            if i < s.len() - 1 {
                assert(schema_view_props(s.drop_last())[i] == (
                    s.drop_last()[i].0@,
                    schema_view_seq(s.drop_last()[i].1@),
                ));
            }
        }
    }
}

/// No two entries of the sequence are structurally equal.
pub open spec fn distinct_schemas(items: Seq<SchemaModel>) -> bool {
    forall|i: int, j: int| 0 <= i < j < items.len() ==> items[i] != items[j]
}

/// Property keys in strictly increasing order; in particular, unique.
pub open spec fn sorted_prop_keys(props: Seq<(Seq<char>, Seq<SchemaModel>)>) -> bool {
    forall|i: int, j: int|
        0 <= i < j < props.len() ==> key_lt(props[i].0, props[j].0)
}

/// The invariant of a schema: an array's items are distinct and
/// themselves well-formed; an object's properties are sorted by key, each
/// key maps to at least one schema, and all of them are well-formed.
pub open spec fn wf_schema(s: SchemaModel) -> bool
    decreases s,
{
    match s {
        SchemaModel::Null => true,
        SchemaModel::Boolean => true,
        SchemaModel::Number => true,
        SchemaModel::String => true,
        SchemaModel::Array(items) => distinct_schemas(items) && wf_schema_seq(items),
        SchemaModel::Object(props) => sorted_prop_keys(props) && (forall|i: int|
            0 <= i < props.len() ==> props[i].1.len() > 0) && wf_props(props),
    }
}

/// Every schema of the sequence is well-formed.
pub open spec fn wf_schema_seq(items: Seq<SchemaModel>) -> bool
    decreases items,
{
    if items.len() == 0 {
        true
    } else {
        wf_schema_seq(items.drop_last()) && wf_schema(items.last())
    }
}

/// Every schema recorded under every property is well-formed.
pub open spec fn wf_props(props: Seq<(Seq<char>, Seq<SchemaModel>)>) -> bool
    decreases props,
{
    if props.len() == 0 {
        true
    } else {
        wf_props(props.drop_last()) && wf_schema_seq(props.last().1)
    }
}

/// `wf_schema_seq` holds exactly when each entry is well-formed.
pub proof fn lemma_wf_schema_seq_index(items: Seq<SchemaModel>)
    ensures
        wf_schema_seq(items) <==> (forall|i: int|
            0 <= i < items.len() ==> wf_schema(items[i])),
    decreases items.len(),
{
    if items.len() > 0 {
        lemma_wf_schema_seq_index(items.drop_last());
        assert(forall|i: int| 0 <= i < items.len() - 1 ==> items.drop_last()[i] == items[i]);
    }
}

/// `wf_props` holds exactly when each property's schemas are well-formed.
pub proof fn lemma_wf_props_index(props: Seq<(Seq<char>, Seq<SchemaModel>)>)
    ensures
        wf_props(props) <==> (forall|i: int|
            0 <= i < props.len() ==> wf_schema_seq(props[i].1)),
    decreases props.len(),
{
    if props.len() > 0 {
        lemma_wf_props_index(props.drop_last());
        assert(forall|i: int| 0 <= i < props.len() - 1 ==> props.drop_last()[i] == props[i]);
    }
}

/// Structural equality of two schemas: tags and all nested contents are
/// recursively equal, exactly when the models are equal.
pub fn schema_eq(a: &Schema, b: &Schema) -> (r: bool)
    ensures
        r == (a@ == b@),
    decreases *a,
{
    match (a, b) {
        (Schema::Null, Schema::Null) => true,
        (Schema::Boolean, Schema::Boolean) => true,
        (Schema::Number, Schema::Number) => true,
        (Schema::String, Schema::String) => true,
        (Schema::Array(x), Schema::Array(y)) => schema_seq_eq(&x.items, &y.items),
        (Schema::Object(x), Schema::Object(y)) => schema_props_eq(&x.properties, &y.properties),
        _ => false,
    }
}

/// Structural equality of two schema sequences.
pub fn schema_seq_eq(a: &Vec<Schema>, b: &Vec<Schema>) -> (r: bool)
    ensures
        r == (schema_view_seq(a@) == schema_view_seq(b@)),
    decreases a@,
{
    proof {
        lemma_schema_view_seq_index(a@);
        lemma_schema_view_seq_index(b@);
    }
    if a.len() != b.len() {
        return false;
    }
    let n = a.len();
    let mut i: usize = 0;
    while i < n
        invariant
            i <= n,
            n == a@.len(),
            n == b@.len(),
            schema_view_seq(a@).len() == n,
            schema_view_seq(b@).len() == n,
            forall|j: int| 0 <= j < a@.len() ==> schema_view_seq(a@)[j] == schema_view(a@[j]),
            forall|j: int| 0 <= j < b@.len() ==> schema_view_seq(b@)[j] == schema_view(b@[j]),
            forall|j: int| 0 <= j < i ==> schema_view_seq(a@)[j] == schema_view_seq(b@)[j],
        decreases n - i,
    {
        if !schema_eq(&a[i], &b[i]) {
            assert(schema_view_seq(a@)[i as int] != schema_view_seq(b@)[i as int]);
            return false;
        }
        i = i + 1;
    }
    proof {
        assert(schema_view_seq(a@) =~= schema_view_seq(b@));
    }
    true
}

/// Structural equality of two property lists.
pub fn schema_props_eq(
    a: &Vec<(String, Vec<Schema>)>,
    b: &Vec<(String, Vec<Schema>)>,
) -> (r: bool)
    ensures
        r == (schema_view_props(a@) == schema_view_props(b@)),
    decreases a@,
{
    proof {
        lemma_schema_view_props_index(a@);
        lemma_schema_view_props_index(b@);
    }
    if a.len() != b.len() {
        return false;
    }
    let n = a.len();
    let mut i: usize = 0;
    while i < n
        invariant
            i <= n,
            n == a@.len(),
            n == b@.len(),
            schema_view_props(a@).len() == n,
            schema_view_props(b@).len() == n,
            forall|j: int| 0 <= j < a@.len() ==> schema_view_props(a@)[j] == (
                a@[j].0@,
                schema_view_seq(a@[j].1@),
            ),
            forall|j: int| 0 <= j < b@.len() ==> schema_view_props(b@)[j] == (
                b@[j].0@,
                schema_view_seq(b@[j].1@),
            ),
            forall|j: int| 0 <= j < i ==> schema_view_props(a@)[j] == schema_view_props(b@)[j],
        decreases n - i,
    {
        let keys_equal = a[i].0 == b[i].0;
        if !keys_equal {
            assert(schema_view_props(a@)[i as int] != schema_view_props(b@)[i as int]);
            return false;
        }
        if !schema_seq_eq(&a[i].1, &b[i].1) {
            assert(schema_view_props(a@)[i as int] != schema_view_props(b@)[i as int]);
            return false;
        }
        i = i + 1;
    }
    proof {
        assert(schema_view_props(a@) =~= schema_view_props(b@));
    }
    true
}

} // verus!
