//! The tree edit walker: applies one user edit per visited node — leaf
//! replacement, type-inferred commits on placeholders, field insertion,
//! sequence element removal and appending — and reports whether the pass
//! changed the tree and where the most recent change happened.

use vstd::prelude::*;

use crate::infer::inferred_node;
use crate::infer::value_from_string;
use crate::value::entries_model;
use crate::value::node_wf;
use crate::value::seq_model;
use crate::value::Node;
use crate::value::PathSeg;
use crate::value::SegModel;
use crate::value::TreeValue;

verus! {

/// One edit a control can request on the node a path points at.
#[derive(Debug, PartialEq, Eq)]
pub enum EditOp {
    /// Replace a boolean leaf.
    SetBool(bool),
    /// Replace an integer leaf.
    SetInt(i64),
    /// Replace a float leaf with new numeric text.
    SetFloat(String),
    /// Replace a string leaf.
    SetStr(String),
    /// Commit typed text over a null placeholder, inferring its type.
    SetFromText(String),
    /// Insert a new key with a type-inferred value into a mapping.
    AddField(String, String),
    /// Remove the element at an index of a sequence.
    RemoveAt(usize),
    /// Append a null placeholder to a sequence.
    AppendNull,
}

/// The mathematical model of an edit operation.
pub enum OpModel {
    SetBool(bool),
    SetInt(int),
    SetFloat(Seq<char>),
    SetStr(Seq<char>),
    SetFromText(Seq<char>),
    AddField(Seq<char>, Seq<char>),
    RemoveAt(int),
    AppendNull,
}

impl View for EditOp {
    type V = OpModel;

    open spec fn view(&self) -> OpModel {
        match self {
            EditOp::SetBool(b) => OpModel::SetBool(*b),
            EditOp::SetInt(i) => OpModel::SetInt(*i as int),
            EditOp::SetFloat(t) => OpModel::SetFloat(t@),
            EditOp::SetStr(t) => OpModel::SetStr(t@),
            EditOp::SetFromText(t) => OpModel::SetFromText(t@),
            EditOp::AddField(k, t) => OpModel::AddField(k@, t@),
            EditOp::RemoveAt(i) => OpModel::RemoveAt(*i as int),
            EditOp::AppendNull => OpModel::AppendNull,
        }
    }
}

/// One pending edit: the path of the node it addresses and the operation.
pub struct Edit {
    pub path: Vec<PathSeg>,
    pub op: EditOp,
}

/// The mathematical model of a pending edit.
pub struct EditModel {
    pub path: Seq<SegModel>,
    pub op: OpModel,
}

/// The model of a path, segmentwise.
pub open spec fn path_model(p: Seq<PathSeg>) -> Seq<SegModel> {
    p.map_values(|g: PathSeg| g@)
}

impl View for Edit {
    type V = EditModel;

    open spec fn view(&self) -> EditModel {
        EditModel { path: path_model(self.path@), op: self.op@ }
    }
}

/// The position of `k` among the entry keys, `-1` when absent.
pub open spec fn key_index(entries: Seq<(Seq<char>, Node)>, k: Seq<char>) -> int
    decreases entries.len(),
{
    if entries.len() == 0 {
        -1
    } else if entries[0].0 == k {
        0
    } else {
        let r = key_index(entries.skip(1), k);
        if r < 0 {
            -1
        } else {
            r + 1
        }
    }
}

proof fn lemma_key_index_at(es: Seq<(Seq<char>, Node)>, k: Seq<char>, j: int)
    requires
        0 <= j <= es.len(),
        forall|m: int| 0 <= m < j ==> (#[trigger] es[m].0) != k,
        j < es.len() ==> es[j].0 == k,
    ensures
        key_index(es, k) == if j == es.len() {
            -1int
        } else {
            j
        },
    decreases es.len(),
{
    if es.len() > 0 && !(es[0].0 == k) {
        let t = es.skip(1);
        assert(forall|m: int| 0 <= m < t.len() ==> #[trigger] t[m] == es[m + 1]);
        lemma_key_index_at(t, k, j - 1);
    }
}

/// Where the key sits when it is present.
proof fn lemma_key_index_props(es: Seq<(Seq<char>, Node)>, k: Seq<char>)
    ensures
        -1 <= key_index(es, k) < es.len(),
        key_index(es, k) >= 0 ==> es[key_index(es, k)].0 == k,
    decreases es.len(),
{
    if es.len() > 0 && !(es[0].0 == k) {
        let t = es.skip(1);
        lemma_key_index_props(t, k);
        if key_index(t, k) >= 0 {
            assert(t[key_index(t, k)] == es[key_index(t, k) + 1]);
        }
    }
}

/// The node a path leads to, if the path exists in the tree.
pub open spec fn node_at(n: Node, path: Seq<SegModel>) -> Option<Node>
    decreases path.len(),
{
    if path.len() == 0 {
        Some(n)
    } else {
        match path[0] {
            SegModel::Key(k) => match n {
                Node::Mapping(entries) => {
                    let i = key_index(entries, k);
                    if i >= 0 {
                        node_at(entries[i].1, path.skip(1))
                    } else {
                        None
                    }
                },
                _ => None,
            },
            SegModel::Index(i) => match n {
                Node::Sequence(items) => if 0 <= i < items.len() {
                    node_at(items[i], path.skip(1))
                } else {
                    None
                },
                _ => None,
            },
        }
    }
}

/// The tree with the node the path leads to replaced; the tree itself when
/// the path leads nowhere.
pub open spec fn replace_at(n: Node, path: Seq<SegModel>, new: Node) -> Node
    decreases path.len(),
{
    if path.len() == 0 {
        new
    } else {
        match path[0] {
            SegModel::Key(k) => match n {
                Node::Mapping(entries) => {
                    let i = key_index(entries, k);
                    if i >= 0 {
                        Node::Mapping(
                            entries.update(i, (k, replace_at(entries[i].1, path.skip(1), new))),
                        )
                    } else {
                        n
                    }
                },
                _ => n,
            },
            SegModel::Index(i) => match n {
                Node::Sequence(items) => if 0 <= i < items.len() {
                    Node::Sequence(items.update(i, replace_at(items[i], path.skip(1), new)))
                } else {
                    n
                },
                _ => n,
            },
        }
    }
}

/// A whitespace character, for the non-empty-key test.
pub open spec fn is_space(c: char) -> bool {
    c == ' ' || c == '\t' || c == '\n' || c == '\r'
}

/// The key holds at least one character that is not whitespace.
pub open spec fn key_usable(k: Seq<char>) -> bool {
    exists|i: int| 0 <= i < k.len() && !is_space(#[trigger] k[i])
}

/// What an operation makes of the node it addresses: `None` when the
/// operation does not fit the node's kind (or, for a field insertion, when
/// the key is blank or already taken).
pub open spec fn op_applied(t: Node, op: OpModel) -> Option<Node> {
    match op {
        OpModel::SetBool(b) => match t {
            Node::Bool(_) => Some(Node::Bool(b)),
            _ => None,
        },
        OpModel::SetInt(i) => match t {
            Node::Int(_) => Some(Node::Int(i)),
            _ => None,
        },
        OpModel::SetFloat(x) => match t {
            Node::Float(_) => Some(Node::Float(x)),
            _ => None,
        },
        OpModel::SetStr(x) => match t {
            Node::Str(_) => Some(Node::Str(x)),
            _ => None,
        },
        OpModel::SetFromText(x) => match t {
            Node::Null => Some(inferred_node(x)),
            _ => None,
        },
        OpModel::AddField(k, x) => match t {
            Node::Mapping(entries) => if key_usable(k) && key_index(entries, k) < 0 {
                Some(Node::Mapping(entries.push((k, inferred_node(x)))))
            } else {
                None
            },
            _ => None,
        },
        OpModel::RemoveAt(i) => match t {
            Node::Sequence(items) => if 0 <= i < items.len() {
                Some(Node::Sequence(items.remove(i)))
            } else {
                None
            },
            _ => None,
        },
        OpModel::AppendNull => match t {
            Node::Sequence(items) => Some(Node::Sequence(items.push(Node::Null))),
            _ => None,
        },
    }
}

/// The effect of one edit on the whole tree: the new tree, and whether it
/// differs from the old one. A path that leads nowhere, an operation that
/// does not fit the node it addresses, and an operation that rebuilds the
/// node it found all leave the tree untouched.
pub open spec fn edit_applied(n: Node, path: Seq<SegModel>, op: OpModel) -> (Node, bool) {
    match node_at(n, path) {
        Some(t) => match op_applied(t, op) {
            Some(t2) => if t2 == t {
                (n, false)
            } else {
                (replace_at(n, path, t2), true)
            },
            None => (n, false),
        },
        None => (n, false),
    }
}

/// The first entry holding `k`, when one does.
fn find_key(entries: &Vec<(String, TreeValue)>, k: &String) -> (r: Option<usize>)
    ensures
        ({
            let ki = key_index(entries_model(entries@), k@);
            match r {
                Some(j) => ki == j && j < entries@.len(),
                None => ki == -1,
            }
        }),
{
    let ghost em = entries_model(entries@);
    let n = entries.len();
    let mut j: usize = 0;
    while j < n
        invariant
            j <= n,
            n == entries@.len(),
            em == entries_model(entries@),
            forall|m: int| 0 <= m < j ==> (#[trigger] em[m].0) != k@,
        decreases n - j,
    {
        if entries[j].0 == *k {
            proof {
                assert(em[j as int].0 == k@);
                lemma_key_index_at(em, k@, j as int);
            }
            return Some(j);
        }
        proof {
            assert(em[j as int].0 == entries@[j as int].0@);
        }
        j = j + 1;
    }
    proof {
        lemma_key_index_at(em, k@, em.len() as int);
    }
    None
}

/// The key holds at least one character that is not whitespace.
fn key_is_usable(k: &String) -> (r: bool)
    ensures
        r == key_usable(k@),
{
    let chars = crate::lex::str_chars(k.as_str());
    let n = chars.len();
    let mut i: usize = 0;
    while i < n
        invariant
            i <= n,
            n == chars@.len(),
            chars@ == k@,
            forall|j: int| 0 <= j < i ==> is_space(#[trigger] k@[j]),
        decreases n - i,
    {
        let c = chars[i];
        if !(c == ' ' || c == '\t' || c == '\n' || c == '\r') {
            assert(!is_space(k@[i as int]));
            return true;
        }
        i = i + 1;
    }
    false
}

/// Applies `op` to `node` itself, per `op_applied`, reporting whether the
/// node changed.
fn apply_here(node: TreeValue, op: &EditOp) -> (r: (TreeValue, bool))
    ensures
        ({
            let (t2, ch) = edit_applied(node@, Seq::<SegModel>::empty(), op@);
            r.0@ == t2 && r.1 == ch
        }),
{
    proof {
        assert(node_at(node@, Seq::<SegModel>::empty()) == Some(node@));
    }
    match op {
        EditOp::SetBool(b) => match node {
            TreeValue::Bool(cur) => if *b == cur {
                (TreeValue::Bool(cur), false)
            } else {
                (TreeValue::Bool(*b), true)
            },
            other => (other, false),
        },
        EditOp::SetInt(i) => match node {
            TreeValue::Int(cur) => if *i == cur {
                (TreeValue::Int(cur), false)
            } else {
                (TreeValue::Int(*i), true)
            },
            other => (other, false),
        },
        EditOp::SetFloat(t) => match node {
            TreeValue::Float(cur) => if *t == cur {
                (TreeValue::Float(cur), false)
            } else {
                (TreeValue::Float(t.clone()), true)
            },
            other => (other, false),
        },
        EditOp::SetStr(t) => match node {
            TreeValue::Str(cur) => if *t == cur {
                (TreeValue::Str(cur), false)
            } else {
                (TreeValue::Str(t.clone()), true)
            },
            other => (other, false),
        },
        EditOp::SetFromText(t) => match node {
            TreeValue::Null => {
                let v = match value_from_string(t.as_str()) {
                    Some(v) => v,
                    None => TreeValue::Null,
                };
                (v, true)
            },
            other => (other, false),
        },
        EditOp::AddField(k, t) => match node {
            TreeValue::Mapping(mut entries) => {
                let usable = key_is_usable(k);
                let present = find_key(&entries, k);
                if usable && present.is_none() {
                    let ghost e0 = entries_model(entries@);
                    let v = match value_from_string(t.as_str()) {
                        Some(v) => v,
                        None => TreeValue::Null,
                    };
                    entries.push((k.clone(), v));
                    proof {
                        assert(entries_model(entries@) =~= e0.push((k@, inferred_node(t@))));
                        assert(e0.push((k@, inferred_node(t@))).len() != e0.len());
                    }
                    (TreeValue::Mapping(entries), true)
                } else {
                    (TreeValue::Mapping(entries), false)
                }
            },
            other => (other, false),
        },
        EditOp::RemoveAt(i) => match node {
            TreeValue::Sequence(mut items) => if *i < items.len() {
                let ghost s0 = seq_model(items@);
                items.remove(*i);
                proof {
                    assert(seq_model(items@) =~= s0.remove(*i as int));
                    assert(s0.remove(*i as int).len() != s0.len());
                }
                (TreeValue::Sequence(items), true)
            } else {
                (TreeValue::Sequence(items), false)
            },
            other => (other, false),
        },
        EditOp::AppendNull => match node {
            TreeValue::Sequence(mut items) => {
                let ghost s0 = seq_model(items@);
                items.push(TreeValue::Null);
                proof {
                    assert(seq_model(items@) =~= s0.push(Node::Null));
                    assert(s0.push(Node::Null).len() != s0.len());
                }
                (TreeValue::Sequence(items), true)
            },
            other => (other, false),
        },
    }
}

/// Applies `op` to the node that the path suffix from `idx` leads to.
fn apply_at(node: TreeValue, path: &Vec<PathSeg>, idx: usize, op: &EditOp) -> (r: (TreeValue, bool))
    requires
        idx <= path@.len(),
    ensures
        ({
            let (t2, ch) = edit_applied(node@, path_model(path@).skip(idx as int), op@);
            r.0@ == t2 && r.1 == ch
        }),
    decreases path@.len() - idx,
{
    let ghost pm = path_model(path@).skip(idx as int);
    if idx == path.len() {
        proof {
            assert(pm =~= Seq::<SegModel>::empty());
        }
        apply_here(node, op)
    } else {
        let ghost rest = path_model(path@).skip(idx + 1);
        proof {
            assert(pm.len() == path@.len() - idx);
            assert(pm[0] == path_model(path@)[idx as int]);
            assert(path_model(path@)[idx as int] == path@[idx as int]@);
            assert(pm.skip(1) =~= rest);
        }
        match &path[idx] {
            PathSeg::Key(k) => match node {
                TreeValue::Mapping(mut entries) => {
                    let ghost e0 = entries_model(entries@);
                    match find_key(&entries, k) {
                        Some(j) => {
                            let ghost ev0 = entries@;
                            let entry = entries.remove(j);
                            let (k0, child) = entry;
                            proof {
                                lemma_key_index_props(e0, k@);
                                assert(e0[j as int].1 == child@);
                                assert(e0[j as int].0 == k0@ && e0[j as int].0 == k@);
                            }
                            let (nv, ch) = apply_at(child, path, idx + 1, op);
                            entries.insert(j, (k0, nv));
                            proof {
                                assert(entries@ =~= ev0.update(j as int, (k0, nv)));
                                assert(entries_model(entries@) =~~= e0.update(
                                    j as int,
                                    (k0@, nv@),
                                ));
                                if !ch {
                                    assert(e0.update(j as int, (k0@, nv@)) =~~= e0);
                                }
                            }
                            (TreeValue::Mapping(entries), ch)
                        }
                        None => (TreeValue::Mapping(entries), false),
                    }
                },
                other => (other, false),
            },
            PathSeg::Index(i) => match node {
                TreeValue::Sequence(mut items) => {
                    if *i < items.len() {
                        let ghost s0 = seq_model(items@);
                        let ghost iv0 = items@;
                        let child = items.remove(*i);
                        proof {
                            assert(s0[*i as int] == child@);
                        }
                        let (nv, ch) = apply_at(child, path, idx + 1, op);
                        items.insert(*i, nv);
                        proof {
                            assert(items@ =~= iv0.update(*i as int, nv));
                            assert(seq_model(items@) =~~= s0.update(*i as int, nv@));
                            if !ch {
                                assert(s0.update(*i as int, nv@) =~~= s0);
                            }
                        }
                        (TreeValue::Sequence(items), ch)
                    } else {
                        (TreeValue::Sequence(items), false)
                    }
                },
                other => (other, false),
            },
        }
    }
}

/// Applies one edit to the tree: the node the path leads to is replaced by
/// what the operation makes of it, everything else stays, and the report
/// says whether the tree changed at all.
pub fn apply_edit(root: TreeValue, path: &Vec<PathSeg>, op: &EditOp) -> (r: (TreeValue, bool))
    ensures
        ({
            let (t2, ch) = edit_applied(root@, path_model(path@), op@);
            r.0@ == t2 && r.1 == ch
        }),
{
    proof {
        assert(path_model(path@).skip(0) =~= path_model(path@));
    }
    apply_at(root, path, 0, op)
}

/// A copy of a path.
pub fn clone_path(p: &Vec<PathSeg>) -> (r: Vec<PathSeg>)
    ensures
        path_model(r@) == path_model(p@),
{
    let n = p.len();
    let mut r: Vec<PathSeg> = Vec::new();
    let mut i: usize = 0;
    while i < n
        invariant
            i <= n,
            n == p@.len(),
            path_model(r@) =~= path_model(p@).take(i as int),
        decreases n - i,
    {
        let ghost r0 = r@;
        let seg = match &p[i] {
            PathSeg::Key(s) => PathSeg::Key(s.clone()),
            PathSeg::Index(x) => PathSeg::Index(*x),
        };
        proof {
            assert(seg@ == p@[i as int]@);
        }
        r.push(seg);
        proof {
            assert(path_model(r0.push(seg)) =~= path_model(r0).push(seg@));
            assert(path_model(p@).take(i + 1)
                =~= path_model(p@).take(i as int).push(p@[i as int]@));
        }
        i = i + 1;
    }
    proof {
        assert(path_model(p@).take(n as int) =~= path_model(p@));
    }
    r
}

/// The location to highlight after an edit changed the tree: the edited
/// node's path — for a field insertion, the new key's path.
pub open spec fn marker_model(path: Seq<SegModel>, op: OpModel) -> Seq<SegModel> {
    match op {
        OpModel::AddField(k, _) => path.push(SegModel::Key(k)),
        _ => path,
    }
}

/// The model of a list of pending edits.
pub open spec fn edits_model(es: Seq<Edit>) -> Seq<EditModel> {
    es.map_values(|e: Edit| e@)
}

/// The effect of a list of edits, applied in order: the final tree and the
/// marker of the most recent edit that changed it, if any did.
pub open spec fn edits_applied(n: Node, edits: Seq<EditModel>) -> (Node, Option<Seq<SegModel>>)
    decreases edits.len(),
{
    if edits.len() == 0 {
        (n, None)
    } else {
        let head = edits[0];
        let (n1, ch) = edit_applied(n, head.path, head.op);
        let m1: Option<Seq<SegModel>> = if ch {
            Some(marker_model(head.path, head.op))
        } else {
            None
        };
        let (n2, m2) = edits_applied(n1, edits.skip(1));
        (
            n2,
            if m2 is Some {
                m2
            } else {
                m1
            },
        )
    }
}

/// Applies the frame's pending edits in order. Returns the edited tree and,
/// when any edit changed it, the path to highlight: that of the most
/// recently changed node.
pub fn apply_edits(root: TreeValue, edits: &Vec<Edit>) -> (r: (TreeValue, Option<Vec<PathSeg>>))
    ensures
        ({
            let (fin, mk) = edits_applied(root@, edits_model(edits@));
            r.0@ == fin && (match r.1 {
                Some(m) => mk == Some(path_model(m@)),
                None => mk is None,
            })
        }),
        node_wf(root@) ==> node_wf(r.0@),
{
    proof {
        if node_wf(root@) {
            lemma_edits_preserve_wf(root@, edits_model(edits@));
        }
    }
    let ghost all = edits_model(edits@);
    let ghost root0 = root@;
    let n = edits.len();
    let mut cur = root;
    let mut marker: Option<Vec<PathSeg>> = None;
    let mut i: usize = 0;
    proof {
        assert(all.skip(0) =~= all);
    }
    while i < n
        invariant
            i <= n,
            n == edits@.len(),
            all == edits_model(edits@),
            ({
                let (ft, fm) = edits_applied(root0, all);
                let (ct, cm) = edits_applied(cur@, all.skip(i as int));
                ft == ct && fm == (if cm is Some {
                    cm
                } else {
                    match marker {
                        Some(m) => Some(path_model(m@)),
                        None => None,
                    }
                })
            }),
        decreases n - i,
    {
        let ghost suf = all.skip(i as int);
        proof {
            assert(suf[0] == all[i as int]);
            assert(all[i as int] == edits@[i as int]@);
            assert(suf.skip(1) =~= all.skip(i + 1));
        }
        let e = &edits[i];
        let (next, ch) = apply_edit(cur, &e.path, &e.op);
        cur = next;
        if ch {
            let mp = clone_path(&e.path);
            let withkey = match &e.op {
                EditOp::AddField(k, _) => {
                    let mut mp2 = mp;
                    mp2.push(PathSeg::Key(k.clone()));
                    proof {
                        assert(path_model(mp2@)
                            =~= path_model(e.path@).push(SegModel::Key(k@)));
                    }
                    mp2
                }
                _ => mp,
            };
            marker = Some(withkey);
        }
        i = i + 1;
    }
    proof {
        assert(all.skip(n as int) =~= Seq::<EditModel>::empty());
    }
    (cur, marker)
}

proof fn lemma_key_absent(es: Seq<(Seq<char>, Node)>, k: Seq<char>)
    requires
        key_index(es, k) == -1,
    ensures
        forall|i: int| 0 <= i < es.len() ==> (#[trigger] es[i].0) != k,
    decreases es.len(),
{
    if es.len() > 0 {
        let t = es.skip(1);
        lemma_key_index_props(t, k);
        lemma_key_absent(t, k);
        assert(forall|i: int| 1 <= i < es.len() ==> #[trigger] es[i].0 == t[i - 1].0);
    }
}

/// A path that exists leads to a well-formed subtree.
proof fn lemma_node_at_wf(n: Node, path: Seq<SegModel>)
    requires
        node_wf(n),
        node_at(n, path) is Some,
    ensures
        node_wf(node_at(n, path)->0),
    decreases path.len(),
{
    if path.len() > 0 {
        match path[0] {
            SegModel::Key(k) => match n {
                Node::Mapping(es) => {
                    lemma_key_index_props(es, k);
                    let i = key_index(es, k);
                    lemma_node_at_wf(es[i].1, path.skip(1));
                },
                _ => {},
            },
            SegModel::Index(i) => match n {
                Node::Sequence(items) => {
                    lemma_node_at_wf(items[i], path.skip(1));
                },
                _ => {},
            },
        }
    }
}

/// What an operation makes of a well-formed node is well-formed: a leaf, a
/// leaf inferred from text, a mapping grown by a fresh key, or a sequence
/// with an element removed or a null appended.
proof fn lemma_op_preserves_wf(t: Node, op: OpModel)
    requires
        node_wf(t),
        op_applied(t, op) is Some,
    ensures
        node_wf(op_applied(t, op)->0),
{
    match op {
        OpModel::AddField(k, x) => match t {
            Node::Mapping(es) => {
                lemma_key_absent(es, k);
                let es2 = es.push((k, inferred_node(x)));
                assert(forall|i: int, j: int|
                    0 <= i < j < es2.len() ==> (#[trigger] es2[i].0) != (#[trigger] es2[j].0));
                assert(forall|i: int| 0 <= i < es2.len() ==> node_wf(#[trigger] es2[i].1));
            },
            _ => {},
        },
        OpModel::RemoveAt(i) => match t {
            Node::Sequence(items) => {
                let s2 = items.remove(i);
                assert(forall|m: int| 0 <= m < s2.len()
                    ==> #[trigger] s2[m] == (if m < i {
                        items[m]
                    } else {
                        items[m + 1]
                    }));
                assert(forall|m: int| 0 <= m < s2.len() ==> node_wf(#[trigger] s2[m]));
            },
            _ => {},
        },
        OpModel::AppendNull => match t {
            Node::Sequence(items) => {
                let s2 = items.push(Node::Null);
                assert(forall|m: int| 0 <= m < s2.len() ==> node_wf(#[trigger] s2[m]));
            },
            _ => {},
        },
        _ => {},
    }
}

/// Replacing the subtree a path leads to by a well-formed one keeps the
/// whole tree well-formed: along the path only a mapping's values change,
/// never its keys.
proof fn lemma_replace_preserves_wf(n: Node, path: Seq<SegModel>, new: Node)
    requires
        node_wf(n),
        node_wf(new),
        node_at(n, path) is Some,
    ensures
        node_wf(replace_at(n, path, new)),
    decreases path.len(),
{
    if path.len() > 0 {
        match path[0] {
            SegModel::Key(k) => match n {
                Node::Mapping(es) => {
                    lemma_key_index_props(es, k);
                    let i = key_index(es, k);
                    lemma_replace_preserves_wf(es[i].1, path.skip(1), new);
                    let es2 = es.update(i, (k, replace_at(es[i].1, path.skip(1), new)));
                    assert(forall|m: int| 0 <= m < es2.len()
                        ==> (#[trigger] es2[m].0) == es[m].0);
                    assert(forall|m: int| 0 <= m < es2.len() ==> node_wf(#[trigger] es2[m].1));
                },
                _ => {},
            },
            SegModel::Index(i) => match n {
                Node::Sequence(items) => {
                    lemma_replace_preserves_wf(items[i], path.skip(1), new);
                    let s2 = items.update(i, replace_at(items[i], path.skip(1), new));
                    assert(forall|m: int| 0 <= m < s2.len() ==> node_wf(#[trigger] s2[m]));
                },
                _ => {},
            },
        }
    }
}

/// The data model's invariant survives one edit: every mapping of the
/// edited tree still carries each key at most once.
pub proof fn lemma_edit_preserves_wf(n: Node, path: Seq<SegModel>, op: OpModel)
    requires
        node_wf(n),
    ensures
        node_wf(edit_applied(n, path, op).0),
{
    match node_at(n, path) {
        Some(t) => {
            lemma_node_at_wf(n, path);
            match op_applied(t, op) {
                Some(t2) => {
                    if t2 != t {
                        lemma_op_preserves_wf(t, op);
                        lemma_replace_preserves_wf(n, path, t2);
                    }
                },
                None => {},
            }
        },
        None => {},
    }
}

/// The data model's invariant survives a whole frame's worth of edits.
pub proof fn lemma_edits_preserve_wf(n: Node, edits: Seq<EditModel>)
    requires
        node_wf(n),
    ensures
        node_wf(edits_applied(n, edits).0),
    decreases edits.len(),
{
    if edits.len() > 0 {
        let head = edits[0];
        lemma_edit_preserves_wf(n, head.path, head.op);
        lemma_edits_preserve_wf(edit_applied(n, head.path, head.op).0, edits.skip(1));
    }
}

} // verus!
