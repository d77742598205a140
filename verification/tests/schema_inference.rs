use jdisc::infer::discover_schema;
use jdisc::json::JsonValue;
use jdisc::schema::{ArraySchema, ObjectSchema, Schema};

#[test]
fn null_maps_to_null() {
    assert_eq!(discover_schema(&JsonValue::Null), Schema::Null);
}

#[test]
fn boolean_maps_to_boolean() {
    assert_eq!(discover_schema(&JsonValue::Boolean), Schema::Boolean);
}

#[test]
fn number_maps_to_number() {
    assert_eq!(discover_schema(&JsonValue::Number), Schema::Number);
}

#[test]
fn string_maps_to_string() {
    assert_eq!(discover_schema(&JsonValue::String), Schema::String);
}

#[test]
fn determinism_same_input_same_output() {
    let v = JsonValue::Object(vec![
        (String::from("x"), JsonValue::Array(vec![JsonValue::Number, JsonValue::String])),
        (String::from("y"), JsonValue::Null),
    ]);
    assert_eq!(discover_schema(&v), discover_schema(&v));
}

#[test]
fn dedup_twice_equals_once() {
    let x = || JsonValue::Object(vec![(String::from("a"), JsonValue::Number)]);
    let twice = JsonValue::Array(vec![x(), x()]);
    let once = JsonValue::Array(vec![x()]);
    assert_eq!(discover_schema(&twice), discover_schema(&once));
}

#[test]
fn order_preserved_first_seen() {
    let v = JsonValue::Array(vec![
        JsonValue::Number,
        JsonValue::String,
        JsonValue::Number,
        JsonValue::String,
    ]);
    let expected = Schema::Array(ArraySchema {
        items: vec![Schema::Number, Schema::String],
    });
    assert_eq!(discover_schema(&v), expected);
}

#[test]
fn no_cross_shape_merge() {
    let v = JsonValue::Array(vec![
        JsonValue::Object(vec![(String::from("a"), JsonValue::Number)]),
        JsonValue::Object(vec![(String::from("b"), JsonValue::String)]),
    ]);
    let expected = Schema::Array(ArraySchema {
        items: vec![
            Schema::Object(ObjectSchema {
                properties: vec![(String::from("a"), vec![Schema::Number])],
            }),
            Schema::Object(ObjectSchema {
                properties: vec![(String::from("b"), vec![Schema::String])],
            }),
        ],
    });
    assert_eq!(discover_schema(&v), expected);
}

#[test]
fn nested_composite() {
    let v = JsonValue::Object(vec![
        (String::from("x"), JsonValue::Array(vec![JsonValue::Number, JsonValue::Number])),
        (
            String::from("y"),
            JsonValue::Object(vec![(String::from("z"), JsonValue::Null)]),
        ),
    ]);
    let expected = Schema::Object(ObjectSchema {
        properties: vec![
            (
                String::from("x"),
                vec![Schema::Array(ArraySchema { items: vec![Schema::Number] })],
            ),
            (
                String::from("y"),
                vec![Schema::Object(ObjectSchema {
                    properties: vec![(String::from("z"), vec![Schema::Null])],
                })],
            ),
        ],
    });
    assert_eq!(discover_schema(&v), expected);
}

#[test]
fn empty_array_has_empty_items() {
    let v = JsonValue::Array(vec![]);
    assert_eq!(
        discover_schema(&v),
        Schema::Array(ArraySchema { items: vec![] })
    );
}

#[test]
fn empty_object_has_empty_properties() {
    let v = JsonValue::Object(vec![]);
    assert_eq!(
        discover_schema(&v),
        Schema::Object(ObjectSchema { properties: vec![] })
    );
}

#[test]
fn duplicate_keys_keep_multiplicity() {
    let v = JsonValue::Object(vec![
        (String::from("k"), JsonValue::Number),
        (String::from("k"), JsonValue::String),
    ]);
    let expected = Schema::Object(ObjectSchema {
        properties: vec![(String::from("k"), vec![Schema::Number, Schema::String])],
    });
    assert_eq!(discover_schema(&v), expected);
}

#[test]
fn object_keys_come_out_sorted() {
    let v = JsonValue::Object(vec![
        (String::from("beta"), JsonValue::Number),
        (String::from("alpha"), JsonValue::Null),
        (String::from("gamma"), JsonValue::String),
    ]);
    let expected = Schema::Object(ObjectSchema {
        properties: vec![
            (String::from("alpha"), vec![Schema::Null]),
            (String::from("beta"), vec![Schema::Number]),
            (String::from("gamma"), vec![Schema::String]),
        ],
    });
    assert_eq!(discover_schema(&v), expected);
}

#[test]
fn mixed_primitives_keep_distinct_entries() {
    let v = JsonValue::Array(vec![JsonValue::Number, JsonValue::String]);
    let expected = Schema::Array(ArraySchema {
        items: vec![Schema::Number, Schema::String],
    });
    assert_eq!(discover_schema(&v), expected);
}

#[test]
fn nested_arrays_dedup_structurally() {
    // [[1], [2], ["s"]] -> items [Array([Number]), Array([String])]
    let v = JsonValue::Array(vec![
        JsonValue::Array(vec![JsonValue::Number]),
        JsonValue::Array(vec![JsonValue::Number]),
        JsonValue::Array(vec![JsonValue::String]),
    ]);
    let expected = Schema::Array(ArraySchema {
        items: vec![
            Schema::Array(ArraySchema { items: vec![Schema::Number] }),
            Schema::Array(ArraySchema { items: vec![Schema::String] }),
        ],
    });
    assert_eq!(discover_schema(&v), expected);
}
