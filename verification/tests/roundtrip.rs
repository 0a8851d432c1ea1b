//! Round-trip checks: parsing the serialization of a tree gives back a
//! structurally equal tree, for every supported format. Equality here is
//! content equality, not textual equality: the serializers are lossy about
//! formatting on purpose.

use doctree::deep_eq;
use doctree::parse_document;
use doctree::serialize_document;
use doctree::FileType;
use doctree::TreeValue;

fn sample_tree_with_null() -> TreeValue {
    TreeValue::Mapping(vec![
        (
            "server".to_string(),
            TreeValue::Mapping(vec![
                ("host".to_string(), TreeValue::Str("localhost".to_string())),
                ("port".to_string(), TreeValue::Int(8080)),
                ("debug".to_string(), TreeValue::Bool(true)),
                ("timeout".to_string(), TreeValue::Float("2.5".to_string())),
            ]),
        ),
        (
            "tags".to_string(),
            TreeValue::Sequence(vec![
                TreeValue::Str("alpha".to_string()),
                TreeValue::Int(-3),
                TreeValue::Bool(false),
                TreeValue::Null,
            ]),
        ),
        ("note".to_string(), TreeValue::Null),
    ])
}

fn assert_round_trips(ft: FileType, tree: &TreeValue) {
    let text = serialize_document(ft, tree).expect("tree should serialize");
    let back = parse_document(ft, &text).expect("serialized text should parse");
    assert!(deep_eq(tree, &back), "round trip changed the tree: {:?}", back);
}

#[test]
fn json_round_trip() {
    assert_round_trips(FileType::Json, &sample_tree_with_null());
}

#[test]
fn yaml_round_trip() {
    assert_round_trips(FileType::Yaml, &sample_tree_with_null());
}

#[test]
fn toml_round_trip() {
    // TOML has no null, wants a table at the root, and emits sub-tables
    // after plain values: a tree already in that order round-trips with its
    // insertion order intact.
    let tree = TreeValue::Mapping(vec![
        ("title".to_string(), TreeValue::Str("example".to_string())),
        ("count".to_string(), TreeValue::Int(12)),
        ("ratio".to_string(), TreeValue::Float("1.5".to_string())),
        (
            "ports".to_string(),
            TreeValue::Sequence(vec![TreeValue::Int(80), TreeValue::Int(443)]),
        ),
        (
            "owner".to_string(),
            TreeValue::Mapping(vec![
                ("name".to_string(), TreeValue::Str("sam".to_string())),
                ("active".to_string(), TreeValue::Bool(true)),
            ]),
        ),
    ]);
    assert_round_trips(FileType::Toml, &tree);
}

#[test]
fn json_text_round_trip_keeps_content() {
    let text = "{\"a\": {\"b\": [1, 2.5, \"x\"]}, \"c\": null}";
    let tree = parse_document(FileType::Json, text).expect("fixture parses");
    let out = serialize_document(FileType::Json, &tree).expect("tree serializes");
    let back = parse_document(FileType::Json, &out).expect("output parses");
    assert!(deep_eq(&tree, &back));
}

#[test]
fn yaml_text_round_trip_keeps_content() {
    let text = "top:\n  a: 1\n  b: two\nlist:\n  - x\n  - 3.5\n";
    let tree = parse_document(FileType::Yaml, text).expect("fixture parses");
    let out = serialize_document(FileType::Yaml, &tree).expect("tree serializes");
    let back = parse_document(FileType::Yaml, &out).expect("output parses");
    assert!(deep_eq(&tree, &back));
}

#[test]
fn toml_text_round_trip_keeps_content() {
    let text = "x = 1\ny = \"s\"\n\n[sub]\nz = 0.25\n";
    let tree = parse_document(FileType::Toml, text).expect("fixture parses");
    let out = serialize_document(FileType::Toml, &tree).expect("tree serializes");
    let back = parse_document(FileType::Toml, &out).expect("output parses");
    assert!(deep_eq(&tree, &back));
}

#[test]
fn mapping_order_is_preserved() {
    let text = "{\"zebra\": 1, \"apple\": 2, \"mid\": 3}";
    let tree = parse_document(FileType::Json, text).expect("fixture parses");
    let out = serialize_document(FileType::Json, &tree).expect("tree serializes");
    let z = out.find("zebra").unwrap();
    let a = out.find("apple").unwrap();
    let m = out.find("mid").unwrap();
    assert!(z < a && a < m, "insertion order lost: {}", out);
}

#[test]
fn toml_cannot_hold_a_null() {
    assert!(serialize_document(FileType::Toml, &TreeValue::Null).is_err());
}

#[test]
fn json_rejects_non_numeric_float_text() {
    let tree = TreeValue::Mapping(vec![(
        "v".to_string(),
        TreeValue::Float("inf".to_string()),
    )]);
    assert!(serialize_document(FileType::Json, &tree).is_err());
}

#[test]
fn each_adapter_rejects_malformed_text() {
    assert!(parse_document(FileType::Json, "{ invalid").is_err());
    assert!(parse_document(FileType::Yaml, "a: [unclosed").is_err());
    assert!(parse_document(FileType::Toml, "= no key").is_err());
}

#[test]
fn yaml_rejects_a_non_string_key() {
    assert!(parse_document(FileType::Yaml, "1: one\n").is_err());
}

#[test]
fn integer_extremes_round_trip_through_json() {
    let text = "{\"lo\": -9223372036854775808, \"hi\": 9223372036854775807}";
    let tree = parse_document(FileType::Json, text).unwrap();
    let expected = TreeValue::Mapping(vec![
        ("lo".to_string(), TreeValue::Int(i64::MIN)),
        ("hi".to_string(), TreeValue::Int(i64::MAX)),
    ]);
    assert!(deep_eq(&tree, &expected));
    assert_round_trips(FileType::Json, &tree);
}

#[test]
fn numbers_beyond_the_integer_range_are_carried_as_text() {
    let tree = parse_document(FileType::Json, "{\"big\": 18446744073709551615}").unwrap();
    let expected = TreeValue::Mapping(vec![(
        "big".to_string(),
        TreeValue::Float("18446744073709551615".to_string()),
    )]);
    assert!(deep_eq(&tree, &expected));
    assert_round_trips(FileType::Json, &tree);
}
