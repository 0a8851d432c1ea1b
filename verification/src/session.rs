//! The editing session: one open document, its raw text buffer as the single
//! source of truth, the per-frame parse–edit–serialize cycle, and the
//! reconciliation that folds external disk changes into the buffer without
//! echoing the session's own writes back as edits.

use vstd::prelude::*;

use crate::adapter::detect_file_type;
use crate::adapter::file_type_of;
use crate::adapter::parse_document;
use crate::adapter::parse_model;
use crate::adapter::serialize_document;
use crate::adapter::serialize_model;
use crate::adapter::FileType;
use crate::lex::str_eq;
use crate::value::Node;
use crate::value::PathSeg;
use crate::value::SegModel;
use crate::value::TreeValue;
use crate::walker::apply_edits;
use crate::walker::edits_applied;
use crate::walker::edits_model;
use crate::walker::path_model;
use crate::walker::Edit;
use crate::walker::EditModel;

verus! {

/// One editing session over a single open file.
pub struct YamlEditorApp {
    /// The path of the open file.
    pub file_path: String,
    /// The adapter chosen by the path's extension when the session opened.
    pub file_type: FileType,
    /// The raw text buffer: the single source of truth written to disk.
    pub content: String,
    /// The tree parsed from the buffer on the last frame, if it parsed.
    pub parsed: Option<TreeValue>,
    /// The parse or serialize error shown inline, if the last frame hit one.
    pub parse_error: Option<String>,
    /// The path of the most recently changed node, for highlighting.
    pub dirty_marker: Option<Vec<PathSeg>>,
    /// Whether the raw text editor pane is shown.
    pub show_raw_editor: bool,
    /// Whether the dark theme is active.
    pub dark_mode: bool,
    /// The query the search box holds.
    pub search_query: String,
}

/// What one frame leaves behind: the buffer, the parsed cache, whether an
/// error is displayed, the text written to disk if any, and the changed
/// node's path if an edit changed the tree.
pub struct FrameModel {
    pub text: Seq<char>,
    pub parsed: Option<Node>,
    pub err: bool,
    pub wrote: Option<Seq<char>>,
    pub marker: Option<Seq<SegModel>>,
}

/// The frame cycle on a buffer: under the unknown mode nothing happens; text
/// that does not parse surfaces an error and is left alone; otherwise the
/// edits run over the tree, and only when one of them changed it is the tree
/// serialized, the buffer replaced, and a disk write called for — with the
/// tree edit kept in memory but the write skipped when serialization fails.
pub open spec fn frame_model(ft: FileType, text: Seq<char>, edits: Seq<EditModel>) -> FrameModel {
    if ft == FileType::Unknown {
        FrameModel { text, parsed: None, err: false, wrote: None, marker: None }
    } else {
        match parse_model(ft, text) {
            None => FrameModel { text, parsed: None, err: true, wrote: None, marker: None },
            Some(t) => {
                let (t2, mk) = edits_applied(t, edits);
                if mk is None {
                    FrameModel { text, parsed: Some(t2), err: false, wrote: None, marker: None }
                } else {
                    match serialize_model(ft, t2) {
                        Some(s) => FrameModel {
                            text: s,
                            parsed: Some(t2),
                            err: false,
                            wrote: Some(s),
                            marker: mk,
                        },
                        None => FrameModel {
                            text,
                            parsed: Some(t2),
                            err: true,
                            wrote: None,
                            marker: mk,
                        },
                    }
                }
            },
        }
    }
}

/// A frame with no pending edits writes nothing and leaves the buffer as it
/// was — so a second frame after an interaction-free one writes nothing
/// more: the cycle is idempotent without user interaction.
pub proof fn lemma_frame_idempotent(
    ft: FileType,
    text: Seq<char>,
    e1: Seq<EditModel>,
    e2: Seq<EditModel>,
)
    requires
        e1.len() == 0,
        e2.len() == 0,
    ensures
        frame_model(ft, text, e1).wrote is None,
        frame_model(ft, text, e1).text == text,
        frame_model(ft, frame_model(ft, text, e1).text, e2).wrote is None,
        frame_model(ft, frame_model(ft, text, e1).text, e2).text == text,
{
}

/// Bundles the path of the opened file and the text read from it: the state
/// the session, the watcher and the editors share.
pub fn init_file_state(path: &str, content: String) -> (r: (String, String))
    ensures
        r.0@ == path@,
        r.1 == content,
{
    (<String as vstd::string::StringExecFns>::from_str(path), content)
}

impl YamlEditorApp {
    /// Opens a session: the adapter is chosen by the path's extension, the
    /// buffer starts as the file's current text, nothing is parsed yet, and
    /// the view begins with the tree pane alone, in dark mode.
    pub fn new(file_path: String, content: String) -> (s: Self)
        ensures
            s.file_path == file_path,
            s.file_type == file_type_of(file_path@),
            s.content == content,
            s.parsed is None,
            s.parse_error is None,
            s.dirty_marker is None,
            s.show_raw_editor == false,
            s.dark_mode == true,
            s.search_query@ == Seq::<char>::empty(),
    {
        let file_type = detect_file_type(file_path.as_str());
        YamlEditorApp {
            file_path,
            file_type,
            content,
            parsed: None,
            parse_error: None,
            dirty_marker: None,
            show_raw_editor: false,
            dark_mode: true,
            search_query: String::new(),
        }
    }

    /// One frame of the edit-and-sync cycle, per `frame_model`: parse the
    /// buffer, apply the pending edits to the tree, and when one of them
    /// changed it, serialize the tree back into the buffer. Returns the text
    /// to persist to disk when the frame calls for a write; the marker of
    /// the most recently changed node is kept for highlighting, and is left
    /// alone on a frame that changes nothing.
    pub fn render_and_sync(&mut self, edits: &Vec<Edit>) -> (w: Option<String>)
        ensures
            ({
                let fm = frame_model(
                    old(self).file_type,
                    old(self).content@,
                    edits_model(edits@),
                );
                &&& final(self).content@ == fm.text
                &&& (match final(self).parsed {
                    Some(v) => fm.parsed == Some(v@),
                    None => fm.parsed is None,
                })
                &&& (final(self).parse_error is Some) == fm.err
                &&& (match w {
                    Some(s) => fm.wrote == Some(s@),
                    None => fm.wrote is None,
                })
                &&& (match fm.marker {
                    Some(pm) => final(self).dirty_marker matches Some(m) && path_model(m@) == pm,
                    None => final(self).dirty_marker == old(self).dirty_marker,
                })
                &&& (match final(self).parsed {
                    Some(v) => crate::value::node_wf(v@),
                    None => true,
                })
                &&& final(self).file_path == old(self).file_path
                &&& final(self).file_type == old(self).file_type
                &&& final(self).show_raw_editor == old(self).show_raw_editor
                &&& final(self).dark_mode == old(self).dark_mode
                &&& final(self).search_query == old(self).search_query
            }),
    {
        let ft = self.file_type;
        match ft {
            FileType::Unknown => {
                self.parsed = None;
                self.parse_error = None;
                None
            },
            _ => {
                match parse_document(ft, self.content.as_str()) {
                    Err(e) => {
                        self.parsed = None;
                        self.parse_error = Some(e);
                        None
                    },
                    Ok(tree) => {
                        let (tree2, mk) = apply_edits(tree, edits);
                        match mk {
                            None => {
                                self.parsed = Some(tree2);
                                self.parse_error = None;
                                None
                            },
                            Some(m) => {
                                self.dirty_marker = Some(m);
                                match serialize_document(ft, &tree2) {
                                    Ok(text) => {
                                        let out = text.clone();
                                        self.content = text;
                                        self.parsed = Some(tree2);
                                        self.parse_error = None;
                                        Some(out)
                                    },
                                    Err(e) => {
                                        self.parsed = Some(tree2);
                                        self.parse_error = Some(e);
                                        None
                                    },
                                }
                            },
                        }
                    },
                }
            },
        }
    }

    /// Adopts freshly read disk content only when it differs from the
    /// buffer, byte for byte. An echo of the session's own write therefore
    /// changes nothing at all, and an external change lands in the buffer
    /// within this one call.
    pub fn reconcile(&mut self, disk: &str) -> (replaced: bool)
        ensures
            final(self).content@ == disk@,
            replaced == (old(self).content@ != disk@),
            !replaced ==> *final(self) == *old(self),
            final(self).file_path == old(self).file_path,
            final(self).file_type == old(self).file_type,
            final(self).parsed == old(self).parsed,
            final(self).parse_error == old(self).parse_error,
            final(self).dirty_marker == old(self).dirty_marker,
            final(self).show_raw_editor == old(self).show_raw_editor,
            final(self).dark_mode == old(self).dark_mode,
            final(self).search_query == old(self).search_query,
    {
        if str_eq(self.content.as_str(), disk) {
            false
        } else {
            self.content = <String as vstd::string::StringExecFns>::from_str(disk);
            true
        }
    }

    /// Replaces the buffer with text edited in the raw editor. Any change is
    /// persisted immediately and unconditionally — there is no validation
    /// gate, so transient invalid states pass through and surface as a parse
    /// error on the next frame. Returns the text to write to disk, or
    /// nothing when the text is the buffer's own content already.
    pub fn set_raw_text(&mut self, new_text: String) -> (w: Option<String>)
        ensures
            final(self).content == new_text,
            (match w {
                Some(s) => s == new_text && old(self).content@ != new_text@,
                None => old(self).content@ == new_text@,
            }),
            final(self).file_path == old(self).file_path,
            final(self).file_type == old(self).file_type,
            final(self).parsed == old(self).parsed,
            final(self).parse_error == old(self).parse_error,
            final(self).dirty_marker == old(self).dirty_marker,
            final(self).show_raw_editor == old(self).show_raw_editor,
            final(self).dark_mode == old(self).dark_mode,
            final(self).search_query == old(self).search_query,
    {
        if str_eq(self.content.as_str(), new_text.as_str()) {
            self.content = new_text;
            None
        } else {
            let out = new_text.clone();
            self.content = new_text;
            Some(out)
        }
    }
}

} // verus!
