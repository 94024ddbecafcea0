use dep_tree::error::{Error, FieldShape};
use dep_tree::json::{
    as_array_from_object, as_array_from_value, as_object_from_value, as_str_from_value,
};

fn document() -> serde_json::Value {
    serde_json::from_str(
        r#"{"name": "demo", "list": [1, "two"], "nested": {"nodes": [true], "count": 3}}"#,
    )
    .unwrap()
}

#[test]
fn reads_an_array_field() {
    let value = document();
    let list = as_array_from_value("list", &value).unwrap();
    assert_eq!(list.len(), 2);
    assert_eq!(list[1].as_str(), Some("two"));
}

#[test]
fn reads_a_text_field() {
    let value = document();
    assert_eq!(as_str_from_value("name", &value), Ok("demo"));
}

#[test]
fn reads_an_object_field_and_its_array() {
    let value = document();
    let nested = as_object_from_value("nested", &value).unwrap();
    let nodes = as_array_from_object("nodes", nested).unwrap();
    assert_eq!(nodes.len(), 1);
    assert_eq!(nodes[0].as_bool(), Some(true));
}

#[test]
fn missing_field_is_a_schema_violation_with_the_node() {
    let value: serde_json::Value = serde_json::from_str(r#"{"a": 1}"#).unwrap();
    assert_eq!(
        as_array_from_value("packages", &value).map(|found| found.len()),
        Err(Error::SchemaViolation {
            field: "packages".to_string(),
            expected: FieldShape::Array,
            snippet: "{\n  \"a\": 1\n}".to_string(),
        })
    );
}

#[test]
fn field_of_wrong_shape_is_a_schema_violation() {
    let value = document();
    assert_eq!(
        as_str_from_value("list", &value),
        Err(Error::SchemaViolation {
            field: "list".to_string(),
            expected: FieldShape::Text,
            snippet: serde_json::to_string_pretty(&value).unwrap(),
        })
    );
    assert_eq!(
        as_array_from_value("name", &value).map(|found| found.len()),
        Err(Error::SchemaViolation {
            field: "name".to_string(),
            expected: FieldShape::Array,
            snippet: serde_json::to_string_pretty(&value).unwrap(),
        })
    );
    assert_eq!(
        as_object_from_value("name", &value).map(|found| found.len()),
        Err(Error::SchemaViolation {
            field: "name".to_string(),
            expected: FieldShape::Object,
            snippet: serde_json::to_string_pretty(&value).unwrap(),
        })
    );
}

#[test]
fn field_of_a_value_that_is_no_object_is_missing() {
    let value: serde_json::Value = serde_json::from_str(r#"["list"]"#).unwrap();
    assert_eq!(
        as_str_from_value("list", &value),
        Err(Error::SchemaViolation {
            field: "list".to_string(),
            expected: FieldShape::Text,
            snippet: "[\n  \"list\"\n]".to_string(),
        })
    );
}

#[test]
fn missing_entry_of_an_object_is_a_schema_violation() {
    let value = document();
    let nested = as_object_from_value("nested", &value).unwrap();
    assert_eq!(
        as_array_from_object("edges", nested).map(|found| found.len()),
        Err(Error::SchemaViolation {
            field: "edges".to_string(),
            expected: FieldShape::Array,
            snippet: format!("{:?}", nested),
        })
    );
    assert_eq!(
        as_array_from_object("count", nested).map(|found| found.len()),
        Err(Error::SchemaViolation {
            field: "count".to_string(),
            expected: FieldShape::Array,
            snippet: format!("{:?}", nested),
        })
    );
}
