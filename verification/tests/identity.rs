use dep_tree::error::Error;
use dep_tree::identity::Identity;

#[test]
fn parses_name_version_and_origin() {
    let parsed = Identity::parse_from_id("foo 0.1.0 (path+file:///work/foo)").unwrap();
    assert_eq!(parsed.name, "foo");
    assert_eq!(parsed.version, "0.1.0");
    assert_eq!(parsed.origin, "(path+file:///work/foo)");
}

#[test]
fn origin_keeps_its_spaces() {
    let parsed = Identity::parse_from_id("foo 0.1.0 some origin with spaces").unwrap();
    assert_eq!(parsed.name, "foo");
    assert_eq!(parsed.version, "0.1.0");
    assert_eq!(parsed.origin, "some origin with spaces");
}

#[test]
fn parses_identifier_with_wide_characters() {
    let parsed = Identity::parse_from_id("caf\u{e9} 1.0.0 \u{4e2d}\u{6587}").unwrap();
    assert_eq!(parsed.name, "caf\u{e9}");
    assert_eq!(parsed.version, "1.0.0");
    assert_eq!(parsed.origin, "\u{4e2d}\u{6587}");
}

#[test]
fn rejects_identifier_without_origin() {
    assert_eq!(
        Identity::parse_from_id("foo 0.1.0"),
        Err(Error::UnparsableIdentifier { text: "foo 0.1.0".to_string() })
    );
}

#[test]
fn rejects_identifier_with_empty_origin() {
    assert_eq!(
        Identity::parse_from_id("foo 0.1.0 "),
        Err(Error::UnparsableIdentifier { text: "foo 0.1.0 ".to_string() })
    );
}

#[test]
fn rejects_identifier_with_empty_name() {
    assert_eq!(
        Identity::parse_from_id(" 0.1.0 origin"),
        Err(Error::UnparsableIdentifier { text: " 0.1.0 origin".to_string() })
    );
}

#[test]
fn rejects_identifier_with_empty_version() {
    assert_eq!(
        Identity::parse_from_id("foo  origin"),
        Err(Error::UnparsableIdentifier { text: "foo  origin".to_string() })
    );
}

#[test]
fn rejects_empty_identifier() {
    assert_eq!(
        Identity::parse_from_id(""),
        Err(Error::UnparsableIdentifier { text: String::new() })
    );
}

#[test]
fn rejects_identifier_without_space() {
    assert_eq!(
        Identity::parse_from_id("path+file:///work/foo#0.1.0"),
        Err(Error::UnparsableIdentifier { text: "path+file:///work/foo#0.1.0".to_string() })
    );
}

#[test]
fn equal_identifiers_give_equal_identities() {
    let first = Identity::parse_from_id("foo 0.1.0 origin").unwrap();
    let second = Identity::parse_from_id("foo 0.1.0 origin").unwrap();
    let other = Identity::parse_from_id("foo 0.1.1 origin").unwrap();
    assert_eq!(first, second);
    assert_ne!(first, other);
    assert_eq!(first.clone(), first);
}

#[test]
fn identity_renders_as_its_identifier() {
    let text = "foo 0.1.0 (registry+https://example.org/index)";
    assert_eq!(Identity::parse_from_id(text).unwrap().render(), text);
    let spaced = "foo 0.1.0 origin with  spaces ";
    assert_eq!(Identity::parse_from_id(spaced).unwrap().render(), spaced);
}
