//! The unified in-memory document model: a tagged value tree shared by all
//! format adapters, together with its mathematical model and the structural
//! equality and well-formedness notions the rest of the crate builds on.

use vstd::prelude::*;

verus! {

/// One step of a key path: a mapping key or a sequence index.
#[derive(Debug, PartialEq, Eq)]
pub enum PathSeg {
    Key(String),
    Index(usize),
}

/// The mathematical model of a path segment.
pub enum SegModel {
    Key(Seq<char>),
    Index(int),
}

impl View for PathSeg {
    type V = SegModel;

    open spec fn view(&self) -> SegModel {
        match self {
            PathSeg::Key(s) => SegModel::Key(s@),
            PathSeg::Index(i) => SegModel::Index(*i as int),
        }
    }
}

/// A node of the document tree. The variants cover everything the three
/// supported formats can express: floating-point numbers are carried as
/// their decimal text, which keeps the tree exact and comparison decidable.
/// Mappings preserve insertion order, which is significant for display and
/// round-tripping.
#[derive(Debug, PartialEq, Eq)]
pub enum TreeValue {
    Null,
    Bool(bool),
    Int(i64),
    Float(String),
    Str(String),
    Sequence(Vec<TreeValue>),
    Mapping(Vec<(String, TreeValue)>),
}

/// The mathematical model of a document tree.
#[verifier::ext_equal]
pub enum Node {
    Null,
    Bool(bool),
    Int(int),
    Float(Seq<char>),
    Str(Seq<char>),
    Sequence(Seq<Node>),
    Mapping(Seq<(Seq<char>, Node)>),
}

impl View for TreeValue {
    type V = Node;

    open spec fn view(&self) -> Node
        decreases self,
    {
        match self {
            TreeValue::Null => Node::Null,
            TreeValue::Bool(b) => Node::Bool(*b),
            TreeValue::Int(i) => Node::Int(*i as int),
            TreeValue::Float(t) => Node::Float(t@),
            TreeValue::Str(s) => Node::Str(s@),
            TreeValue::Sequence(items) => Node::Sequence(seq_model(items@)),
            TreeValue::Mapping(entries) => Node::Mapping(entries_model(entries@)),
        }
    }
}

/// The model of a vector of child values, elementwise.
pub open spec fn seq_model(items: Seq<TreeValue>) -> Seq<Node>
    decreases items,
{
    Seq::new(items.len(), |i: int|
        if 0 <= i < items.len() {
            items[i]@
        } else {
            Node::Null
        })
}

/// The model of a vector of mapping entries, elementwise.
pub open spec fn entries_model(entries: Seq<(String, TreeValue)>) -> Seq<(Seq<char>, Node)>
    decreases entries,
{
    Seq::new(entries.len(), |i: int|
        if 0 <= i < entries.len() {
            (entries[i].0@, entries[i].1@)
        } else {
            (Seq::empty(), Node::Null)
        })
}

/// Key uniqueness inside every mapping of the tree: the invariant every
/// parsed document and every edited tree maintains.
pub open spec fn node_wf(n: Node) -> bool
    decreases n,
{
    match n {
        Node::Sequence(items) => forall|i: int|
            0 <= i < items.len() ==> node_wf(#[trigger] items[i]),
        Node::Mapping(entries) => {
            &&& forall|i: int, j: int|
                0 <= i < j < entries.len() ==> (#[trigger] entries[i].0) != (#[trigger] entries[j].0)
            &&& forall|i: int| 0 <= i < entries.len() ==> node_wf(#[trigger] entries[i].1)
        },
        _ => true,
    }
}

/// Structural equality of two trees: same variant and, recursively, the same
/// children in the same order under the same keys. This is the content
/// equality used to detect no-op edits and to compare round-tripped trees.
pub fn deep_eq(a: &TreeValue, b: &TreeValue) -> (r: bool)
    ensures
        r == (a@ == b@),
    decreases a,
{
    match a {
        TreeValue::Null => match b {
            TreeValue::Null => true,
            _ => false,
        },
        TreeValue::Bool(x) => match b {
            TreeValue::Bool(y) => *x == *y,
            _ => false,
        },
        TreeValue::Int(x) => match b {
            TreeValue::Int(y) => *x == *y,
            _ => false,
        },
        TreeValue::Float(x) => match b {
            TreeValue::Float(y) => *x == *y,
            _ => false,
        },
        TreeValue::Str(x) => match b {
            TreeValue::Str(y) => *x == *y,
            _ => false,
        },
        TreeValue::Sequence(xs) => match b {
            TreeValue::Sequence(ys) => {
                proof {
                    assert(decreases_to!(*a => xs@));
                    assert(a@ == Node::Sequence(seq_model(xs@)));
                    assert(b@ == Node::Sequence(seq_model(ys@)));
                }
                deep_eq_items(xs, ys)
            }
            _ => false,
        },
        TreeValue::Mapping(xs) => match b {
            TreeValue::Mapping(ys) => {
                proof {
                    assert(decreases_to!(*a => xs@));
                    assert(a@ == Node::Mapping(entries_model(xs@)));
                    assert(b@ == Node::Mapping(entries_model(ys@)));
                }
                deep_eq_entries(xs, ys)
            }
            _ => false,
        },
    }
}

/// Elementwise structural equality of two child vectors.
fn deep_eq_items(xs: &Vec<TreeValue>, ys: &Vec<TreeValue>) -> (r: bool)
    ensures
        r == (seq_model(xs@) == seq_model(ys@)),
    decreases xs@,
{
    if xs.len() != ys.len() {
        assert(seq_model(xs@).len() != seq_model(ys@).len());
        return false;
    }
    let mut i: usize = 0;
    while i < xs.len()
        invariant
            xs.len() == ys.len(),
            i <= xs.len(),
            forall|j: int| 0 <= j < i ==> seq_model(xs@)[j] == seq_model(ys@)[j],
        decreases xs.len() - i,
    {
        if !deep_eq(&xs[i], &ys[i]) {
            assert(seq_model(xs@)[i as int] != seq_model(ys@)[i as int]);
            return false;
        }
        i = i + 1;
    }
    assert(seq_model(xs@) =~= seq_model(ys@));
    true
}

/// Elementwise structural equality of two entry vectors: keys and values.
fn deep_eq_entries(xs: &Vec<(String, TreeValue)>, ys: &Vec<(String, TreeValue)>) -> (r: bool)
    ensures
        r == (entries_model(xs@) == entries_model(ys@)),
    decreases xs@,
{
    if xs.len() != ys.len() {
        assert(entries_model(xs@).len() != entries_model(ys@).len());
        return false;
    }
    let mut i: usize = 0;
    while i < xs.len()
        invariant
            xs.len() == ys.len(),
            i <= xs.len(),
            forall|j: int| 0 <= j < i ==> entries_model(xs@)[j] == entries_model(ys@)[j],
        decreases xs.len() - i,
    {
        if !(xs[i].0 == ys[i].0 && deep_eq(&xs[i].1, &ys[i].1)) {
            assert(entries_model(xs@)[i as int] != entries_model(ys@)[i as int]);
            return false;
        }
        i = i + 1;
    }
    assert(entries_model(xs@) =~= entries_model(ys@));
    true
}

} // verus!
