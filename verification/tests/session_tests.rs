//! The editing session: the per-frame cycle, idempotence without
//! interaction, self-write suppression, external-change propagation, and
//! the malformed-input path.

use doctree::init_file_state;
use doctree::Edit;
use doctree::EditOp;
use doctree::PathSeg;
use doctree::YamlEditorApp;

fn key(s: &str) -> PathSeg {
    PathSeg::Key(s.to_string())
}

#[test]
fn render_and_sync_without_edits_is_idempotent() {
    // Two frames with no user interaction between them: neither calls for a
    // disk write, and the buffer is untouched.
    let text = "{\"a\": {\"b\": 1}}".to_string();
    let mut app = YamlEditorApp::new("conf.json".to_string(), text.clone());
    let no_edits: Vec<Edit> = vec![];
    assert_eq!(app.render_and_sync(&no_edits), None);
    assert_eq!(app.content, text);
    assert_eq!(app.render_and_sync(&no_edits), None);
    assert_eq!(app.content, text);
    assert!(app.parsed.is_some());
    assert!(app.parse_error.is_none());
}

#[test]
fn an_edit_writes_and_highlights() {
    let mut app = YamlEditorApp::new(
        "conf.json".to_string(),
        "{\"a\": {\"b\": 1}}".to_string(),
    );
    let edits = vec![Edit { path: vec![key("a"), key("b")], op: EditOp::SetInt(2) }];
    let written = app.render_and_sync(&edits).expect("the edit calls for a write");
    assert_eq!(written, app.content);
    assert_eq!(app.dirty_marker, Some(vec![key("a"), key("b")]));
    // The frame after the edit, with no interaction, writes nothing more.
    assert_eq!(app.render_and_sync(&vec![]), None);
}

#[test]
fn self_write_suppression() {
    // Writing the buffer to disk and then delivering a change notification
    // for that exact content must leave everything unchanged.
    let text = "a: 1\n".to_string();
    let mut app = YamlEditorApp::new("conf.yaml".to_string(), text.clone());
    let replaced = app.reconcile(&text);
    assert!(!replaced);
    assert_eq!(app.content, text);
}

#[test]
fn external_change_propagation() {
    // Modifying the on-disk file to new content and delivering a change
    // notification must land that content in the buffer in one call.
    let mut app = YamlEditorApp::new("conf.yaml".to_string(), "a: 1\n".to_string());
    let replaced = app.reconcile("a: 2\n");
    assert!(replaced);
    assert_eq!(app.content, "a: 2\n");
}

#[test]
fn malformed_input_disables_the_tree_but_not_the_editor() {
    // "{ invalid" under the JSON adapter: no parsed tree, a surfaced parse
    // error, and the raw-text editor stays fully functional.
    let mut app = YamlEditorApp::new("conf.json".to_string(), String::new());
    let w = app.set_raw_text("{ invalid".to_string());
    assert_eq!(w, Some("{ invalid".to_string()));
    assert_eq!(app.render_and_sync(&vec![]), None);
    assert!(app.parsed.is_none());
    assert!(app.parse_error.is_some());
    // Raw-text editing still works and still writes unconditionally.
    let w2 = app.set_raw_text("{\"a\": 1}".to_string());
    assert_eq!(w2, Some("{\"a\": 1}".to_string()));
    assert_eq!(app.render_and_sync(&vec![]), None);
    assert!(app.parsed.is_some());
    assert!(app.parse_error.is_none());
}

#[test]
fn raw_text_writes_are_unconditional_but_not_echoed() {
    let mut app = YamlEditorApp::new("conf.yaml".to_string(), "a: 1\n".to_string());
    // An unchanged buffer does not call for a write.
    assert_eq!(app.set_raw_text("a: 1\n".to_string()), None);
    // Any change does, even one that does not parse.
    let w = app.set_raw_text("a: [unclosed".to_string());
    assert_eq!(w, Some("a: [unclosed".to_string()));
}

#[test]
fn an_unknown_extension_disables_the_tree_view() {
    let mut app = YamlEditorApp::new("notes.txt".to_string(), "free text".to_string());
    assert_eq!(app.render_and_sync(&vec![]), None);
    assert!(app.parsed.is_none());
    // The unknown mode is not an error: nothing is surfaced inline.
    assert!(app.parse_error.is_none());
    // Raw-text editing and disk writes still work.
    assert_eq!(
        app.set_raw_text("other text".to_string()),
        Some("other text".to_string())
    );
}

#[test]
fn serialize_error_keeps_the_edit_in_memory_and_skips_the_write() {
    // A TOML tree that acquires a null placeholder cannot be re-encoded:
    // the in-memory edit stays, the disk write is skipped, and an error is
    // surfaced.
    let text = "xs = [1]\n".to_string();
    let mut app = YamlEditorApp::new("conf.toml".to_string(), text.clone());
    let edits = vec![Edit { path: vec![key("xs")], op: EditOp::AppendNull }];
    assert_eq!(app.render_and_sync(&edits), None);
    assert_eq!(app.content, text);
    assert!(app.parse_error.is_some());
    assert!(app.parsed.is_some());
}

#[test]
fn sessions_pick_their_adapter_from_the_extension() {
    let yaml = YamlEditorApp::new("a/b/conf.YML".to_string(), String::new());
    assert_eq!(yaml.file_type, doctree::FileType::Yaml);
    let json = YamlEditorApp::new("x.json".to_string(), String::new());
    assert_eq!(json.file_type, doctree::FileType::Json);
    let toml = YamlEditorApp::new("x.TOML".to_string(), String::new());
    assert_eq!(toml.file_type, doctree::FileType::Toml);
    let unknown = YamlEditorApp::new("README".to_string(), String::new());
    assert_eq!(unknown.file_type, doctree::FileType::Unknown);
}

#[test]
fn init_file_state_bundles_path_and_content() {
    let (path, content) = init_file_state("conf.yaml", "a: 1\n".to_string());
    assert_eq!(path, "conf.yaml");
    assert_eq!(content, "a: 1\n");
}

#[test]
fn repeating_an_edit_does_not_write_again() {
    // The first frame applies the change and writes; a frame that delivers
    // the same control value again is a no-op and writes nothing.
    let mut app = YamlEditorApp::new(
        "conf.json".to_string(),
        "{\"a\": {\"b\": 1}}".to_string(),
    );
    let edits = vec![Edit { path: vec![key("a"), key("b")], op: EditOp::SetInt(2) }];
    assert!(app.render_and_sync(&edits).is_some());
    assert_eq!(app.render_and_sync(&edits), None);
}
