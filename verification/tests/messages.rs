use dep_tree::error::{Error, FieldShape};
use dep_tree::identity::Identity;

fn foo() -> Identity {
    Identity {
        name: "foo".to_string(),
        version: "0.1.0".to_string(),
        origin: "(origin)".to_string(),
    }
}

#[test]
fn schema_violation_names_the_field_and_shows_the_node() {
    let error = Error::SchemaViolation {
        field: "manifest_path".to_string(),
        expected: FieldShape::Text,
        snippet: "{\n  \"id\": 1\n}".to_string(),
    };
    assert_eq!(
        error.message(),
        "Couldn't find string entry 'manifest_path' in:\n{\n  \"id\": 1\n}"
    );
}

#[test]
fn schema_violation_names_the_shape() {
    let array = Error::SchemaViolation {
        field: "f".to_string(),
        expected: FieldShape::Array,
        snippet: "1".to_string(),
    };
    let object = Error::SchemaViolation {
        field: "f".to_string(),
        expected: FieldShape::Object,
        snippet: "1".to_string(),
    };
    assert_eq!(array.message(), "Couldn't find array entry 'f' in:\n1");
    assert_eq!(object.message(), "Couldn't find object entry 'f' in:\n1");
}

#[test]
fn unparsable_identifier_shows_the_text() {
    let error = Error::UnparsableIdentifier { text: "broken".to_string() };
    assert_eq!(error.message(), "Couldn't parse the identifier 'broken'");
}

#[test]
fn unresolved_reference_shows_the_identifier() {
    let error = Error::UnresolvedReference { identity: foo() };
    assert_eq!(error.message(), "Couldn't find package for foo 0.1.0 (origin)");
}

#[test]
fn invalid_source_directory_shows_the_path() {
    let error = Error::InvalidSourceDirectory { path: "/gone".to_string() };
    assert_eq!(error.message(), "Invalid source path directory '/gone'");
}

#[test]
fn failed_construction_shows_the_identifier() {
    let error = Error::DownstreamConstructionFailure { identity: foo() };
    assert_eq!(error.message(), "Couldn't make a source for foo 0.1.0 (origin)");
}
