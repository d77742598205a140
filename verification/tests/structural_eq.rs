use jdisc::infer::discover_schema;
use jdisc::json::JsonValue;
use jdisc::schema::{schema_eq, ArraySchema, ObjectSchema, Schema};

#[test]
fn schema_eq_agrees_on_equal_trees() {
    let a = Schema::Object(ObjectSchema {
        properties: vec![(
            String::from("k"),
            vec![Schema::Array(ArraySchema { items: vec![Schema::Null] })],
        )],
    });
    let b = Schema::Object(ObjectSchema {
        properties: vec![(
            String::from("k"),
            vec![Schema::Array(ArraySchema { items: vec![Schema::Null] })],
        )],
    });
    assert!(schema_eq(&a, &b));
}

#[test]
fn schema_eq_distinguishes_tags() {
    assert!(!schema_eq(&Schema::Null, &Schema::Boolean));
    assert!(!schema_eq(
        &Schema::Array(ArraySchema { items: vec![] }),
        &Schema::Object(ObjectSchema { properties: vec![] })
    ));
}

#[test]
fn schema_eq_distinguishes_nested_contents() {
    let a = Schema::Array(ArraySchema { items: vec![Schema::Number] });
    let b = Schema::Array(ArraySchema { items: vec![Schema::String] });
    assert!(!schema_eq(&a, &b));
    let c = Schema::Object(ObjectSchema {
        properties: vec![(String::from("a"), vec![Schema::Number])],
    });
    let d = Schema::Object(ObjectSchema {
        properties: vec![(String::from("b"), vec![Schema::Number])],
    });
    assert!(!schema_eq(&c, &d));
}

#[test]
fn unicode_keys_sort_by_code_point() {
    let v = JsonValue::Object(vec![
        (String::from("\u{e9}clair"), JsonValue::Number),
        (String::from("zebra"), JsonValue::Null),
    ]);
    // 'z' (U+007A) sorts before 'é' (U+00E9)
    let expected = Schema::Object(ObjectSchema {
        properties: vec![
            (String::from("zebra"), vec![Schema::Null]),
            (String::from("\u{e9}clair"), vec![Schema::Number]),
        ],
    });
    assert_eq!(discover_schema(&v), expected);
}
