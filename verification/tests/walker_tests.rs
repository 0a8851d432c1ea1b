//! The tree edit walker: leaf edits, structural edits, no-op detection, and
//! the inference behind the add-field affordance.

use doctree::apply_edit;
use doctree::apply_edits;
use doctree::deep_eq;
use doctree::parse_document;
use doctree::serialize_document;
use doctree::value_from_string;
use doctree::Edit;
use doctree::EditOp;
use doctree::FileType;
use doctree::PathSeg;
use doctree::TreeValue;

fn key(s: &str) -> PathSeg {
    PathSeg::Key(s.to_string())
}

#[test]
fn structural_edit_example() {
    // Editing leaf b from 1 to 2 in {"a": {"b": 1}} marks the tree modified,
    // highlights ["a", "b"], and serializes to content equal to
    // {"a": {"b": 2}}.
    let tree = parse_document(FileType::Json, "{\"a\": {\"b\": 1}}").unwrap();
    let edits = vec![Edit { path: vec![key("a"), key("b")], op: EditOp::SetInt(2) }];
    let (tree2, marker) = apply_edits(tree, &edits);
    assert_eq!(marker, Some(vec![key("a"), key("b")]));
    let out = serialize_document(FileType::Json, &tree2).unwrap();
    let back = parse_document(FileType::Json, &out).unwrap();
    let expected = parse_document(FileType::Json, "{\"a\": {\"b\": 2}}").unwrap();
    assert!(deep_eq(&back, &expected));
}

#[test]
fn setting_the_same_value_is_a_no_op() {
    let tree = parse_document(FileType::Json, "{\"a\": {\"b\": 1}}").unwrap();
    let (tree2, changed) = apply_edit(tree, &vec![key("a"), key("b")], &EditOp::SetInt(1));
    assert!(!changed);
    let expected = parse_document(FileType::Json, "{\"a\": {\"b\": 1}}").unwrap();
    assert!(deep_eq(&tree2, &expected));
}

#[test]
fn an_edit_off_the_tree_changes_nothing() {
    let tree = parse_document(FileType::Json, "{\"a\": 1}").unwrap();
    let (tree2, changed) = apply_edit(tree, &vec![key("missing")], &EditOp::SetInt(2));
    assert!(!changed);
    let expected = parse_document(FileType::Json, "{\"a\": 1}").unwrap();
    assert!(deep_eq(&tree2, &expected));
}

#[test]
fn a_mismatched_operation_changes_nothing() {
    let tree = parse_document(FileType::Json, "{\"a\": \"text\"}").unwrap();
    let (tree2, changed) = apply_edit(tree, &vec![key("a")], &EditOp::SetBool(true));
    assert!(!changed);
    let expected = parse_document(FileType::Json, "{\"a\": \"text\"}").unwrap();
    assert!(deep_eq(&tree2, &expected));
}

#[test]
fn removing_a_sequence_element() {
    let tree = parse_document(FileType::Json, "{\"xs\": [10, 20, 30]}").unwrap();
    let (tree2, changed) = apply_edit(tree, &vec![key("xs")], &EditOp::RemoveAt(1));
    assert!(changed);
    let expected = parse_document(FileType::Json, "{\"xs\": [10, 30]}").unwrap();
    assert!(deep_eq(&tree2, &expected));
}

#[test]
fn removing_past_the_end_changes_nothing() {
    let tree = parse_document(FileType::Json, "{\"xs\": [10]}").unwrap();
    let (tree2, changed) = apply_edit(tree, &vec![key("xs")], &EditOp::RemoveAt(5));
    assert!(!changed);
    let expected = parse_document(FileType::Json, "{\"xs\": [10]}").unwrap();
    assert!(deep_eq(&tree2, &expected));
}

#[test]
fn appending_a_null_placeholder() {
    let tree = parse_document(FileType::Json, "{\"xs\": [1]}").unwrap();
    let (tree2, changed) = apply_edit(tree, &vec![key("xs")], &EditOp::AppendNull);
    assert!(changed);
    let expected = parse_document(FileType::Json, "{\"xs\": [1, null]}").unwrap();
    assert!(deep_eq(&tree2, &expected));
}

#[test]
fn committing_typed_text_over_a_placeholder() {
    let tree = parse_document(FileType::Json, "{\"xs\": [null]}").unwrap();
    let (tree2, changed) = apply_edit(
        tree,
        &vec![key("xs"), PathSeg::Index(0)],
        &EditOp::SetFromText("42".to_string()),
    );
    assert!(changed);
    let expected = parse_document(FileType::Json, "{\"xs\": [42]}").unwrap();
    assert!(deep_eq(&tree2, &expected));
}

#[test]
fn add_field_inserts_at_the_end() {
    let tree = parse_document(FileType::Json, "{\"a\": 1}").unwrap();
    let edits = vec![Edit {
        path: vec![],
        op: EditOp::AddField("count".to_string(), "42".to_string()),
    }];
    let (tree2, marker) = apply_edits(tree, &edits);
    // The marker points at the inserted key.
    assert_eq!(marker, Some(vec![key("count")]));
    let expected = parse_document(FileType::Json, "{\"a\": 1, \"count\": 42}").unwrap();
    assert!(deep_eq(&tree2, &expected));
}

#[test]
fn add_field_rejects_a_taken_key() {
    let tree = parse_document(FileType::Json, "{\"a\": 1}").unwrap();
    let (tree2, changed) = apply_edit(
        tree,
        &vec![],
        &EditOp::AddField("a".to_string(), "2".to_string()),
    );
    assert!(!changed);
    let expected = parse_document(FileType::Json, "{\"a\": 1}").unwrap();
    assert!(deep_eq(&tree2, &expected));
}

#[test]
fn add_field_rejects_a_blank_key() {
    let tree = parse_document(FileType::Json, "{\"a\": 1}").unwrap();
    let (_, changed) = apply_edit(
        tree,
        &vec![],
        &EditOp::AddField("  \t".to_string(), "2".to_string()),
    );
    assert!(!changed);
}

#[test]
fn the_last_change_wins_the_marker() {
    let tree = parse_document(FileType::Json, "{\"a\": 1, \"b\": 2}").unwrap();
    let edits = vec![
        Edit { path: vec![key("a")], op: EditOp::SetInt(10) },
        Edit { path: vec![key("b")], op: EditOp::SetInt(20) },
        Edit { path: vec![key("a")], op: EditOp::SetInt(10) },
    ];
    let (_, marker) = apply_edits(tree, &edits);
    // The third edit re-applies an already-set value, so the second is the
    // most recent change.
    assert_eq!(marker, Some(vec![key("b")]));
}

#[test]
fn add_field_inference_examples() {
    // Key "count" with typed value "42" inserts Int(42); "true" inserts
    // Bool(true); "hello" inserts String("hello").
    assert_eq!(value_from_string("42").unwrap(), TreeValue::Int(42));
    assert_eq!(value_from_string("true").unwrap(), TreeValue::Bool(true));
    assert_eq!(
        value_from_string("hello").unwrap(),
        TreeValue::Str("hello".to_string())
    );
}

#[test]
fn inference_precedence_and_edges() {
    assert_eq!(value_from_string("FALSE").unwrap(), TreeValue::Bool(false));
    assert_eq!(value_from_string("-7").unwrap(), TreeValue::Int(-7));
    assert_eq!(value_from_string("+12").unwrap(), TreeValue::Int(12));
    assert_eq!(
        value_from_string("3.5").unwrap(),
        TreeValue::Float("3.5".to_string())
    );
    assert_eq!(
        value_from_string("2e10").unwrap(),
        TreeValue::Float("2e10".to_string())
    );
    assert_eq!(
        value_from_string("inf").unwrap(),
        TreeValue::Float("inf".to_string())
    );
    // Too large for an integer, still a valid float literal.
    assert_eq!(
        value_from_string("9223372036854775808").unwrap(),
        TreeValue::Float("9223372036854775808".to_string())
    );
    assert_eq!(
        value_from_string("9223372036854775807").unwrap(),
        TreeValue::Int(9223372036854775807)
    );
    assert_eq!(
        value_from_string("-9223372036854775808").unwrap(),
        TreeValue::Int(-9223372036854775808)
    );
    // Surrounding quotes are stripped from the string fallback.
    assert_eq!(
        value_from_string("\"quoted\"").unwrap(),
        TreeValue::Str("quoted".to_string())
    );
    assert_eq!(
        value_from_string("1_000").unwrap(),
        TreeValue::Str("1_000".to_string())
    );
    assert_eq!(value_from_string("").unwrap(), TreeValue::Str(String::new()));
}
