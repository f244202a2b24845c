//! Syntax trees as flat lists of nodes.
//!
//! The nodes of a tree stand in the order in which a depth-first walk meets them. With the depth
//! of each node the list determines the tree: the children of a node are the nodes one level
//! deeper that follow it before the walk leaves it, and its parent is the closest earlier node
//! that is less deep.

use vstd::prelude::*;

use crate::order::as_ints;
use crate::sdk::{Location, LocationView};

verus! {

/// A node of a syntax tree.
#[derive(Debug, PartialEq, Eq)]
pub struct AstNode {
    pub kind: String,
    pub text: String,
    pub start_byte: usize,
    pub end_byte: usize,
    /// Line and column of the first character, counted from zero.
    pub start: (usize, usize),
    /// Line and column behind the last character, counted from zero.
    pub end: (usize, usize),
    /// The number of ancestors.
    pub depth: usize,
}

pub struct NodeView {
    pub kind: Seq<char>,
    pub text: Seq<char>,
    pub start_byte: usize,
    pub end_byte: usize,
    pub start: (usize, usize),
    pub end: (usize, usize),
    pub depth: usize,
}

impl View for AstNode {
    type V = NodeView;

    open spec fn view(&self) -> NodeView {
        NodeView {
            kind: self.kind@,
            text: self.text@,
            start_byte: self.start_byte,
            end_byte: self.end_byte,
            start: self.start,
            end: self.end,
            depth: self.depth,
        }
    }
}

pub open spec fn tree(v: Seq<AstNode>) -> Seq<NodeView> {
    v.map_values(|n: AstNode| n@)
}

/// No line or column is the largest number, so that all of them can also be counted from one.
pub open spec fn positions_fit(t: Seq<NodeView>) -> bool {
    forall|i: int|
        0 <= i < t.len() ==> {
            let n = #[trigger] t[i];
            &&& n.start.0 < usize::MAX
            &&& n.start.1 < usize::MAX
            &&& n.end.0 < usize::MAX
            &&& n.end.1 < usize::MAX
        }
}

/// The nodes from position `k` on that are children of the node `i`.
pub open spec fn children_from(t: Seq<NodeView>, i: int, k: int) -> Seq<int>
    decreases t.len() - k,
{
    if k >= t.len() || t[k].depth <= t[i].depth {
        Seq::empty()
    } else if t[k].depth == t[i].depth + 1 {
        seq![k] + children_from(t, i, k + 1)
    } else {
        children_from(t, i, k + 1)
    }
}

/// The children of the node `i`, in source order.
pub open spec fn children_of(t: Seq<NodeView>, i: int) -> Seq<int> {
    children_from(t, i, i + 1)
}

/// The last node before position `k` that is less deep than `depth`.
pub open spec fn shallower_before(t: Seq<NodeView>, depth: int, k: int) -> Option<int>
    decreases k,
{
    if k <= 0 {
        None
    } else if t[k - 1].depth < depth {
        Some(k - 1)
    } else {
        shallower_before(t, depth, k - 1)
    }
}

/// The parent of the node `i`; the root has none.
pub open spec fn parent_of(t: Seq<NodeView>, i: int) -> Option<int> {
    shallower_before(t, t[i].depth as int, i)
}

/// The place of a node in the file `path`.
pub open spec fn node_location(path: Seq<char>, n: NodeView) -> LocationView {
    LocationView {
        file_path: path,
        start_position: ((n.start.0 + 1) as usize, (n.start.1 + 1) as usize),
        end_position: ((n.end.0 + 1) as usize, (n.end.1 + 1) as usize),
    }
}

pub proof fn lemma_parent_before(t: Seq<NodeView>, depth: int, k: int)
    requires
        0 <= k <= t.len(),
    ensures
        shallower_before(t, depth, k) matches Some(p) ==> 0 <= p < k && t[p].depth < depth,
    decreases k,
{
    if k > 0 && t[k - 1].depth >= depth {
        lemma_parent_before(t, depth, k - 1);
    }
}

/// A parent comes before its children in the list, and is less deep.
pub proof fn parents_precede_children(t: Seq<NodeView>, i: int)
    requires
        0 <= i < t.len(),
    ensures
        parent_of(t, i) matches Some(p) ==> 0 <= p < i && t[p].depth < t[i].depth,
{
    lemma_parent_before(t, t[i].depth as int, i);
}

proof fn lemma_child_walk(t: Seq<NodeView>, i: int, k: int, j: int)
    requires
        0 <= i < k <= t.len(),
        0 <= j < children_from(t, i, k).len(),
        forall|m: int| i < m < k ==> #[trigger] t[m].depth > t[i].depth,
    ensures
        ({
            let c = children_from(t, i, k)[j];
            &&& k <= c < t.len()
            &&& t[c].depth == t[i].depth + 1
            &&& forall|m: int| i < m < c ==> #[trigger] t[m].depth > t[i].depth
        }),
    decreases t.len() - k,
{
    if t[k].depth == t[i].depth + 1 {
        if j > 0 {
            lemma_child_walk(t, i, k + 1, j - 1);
        }
    } else {
        lemma_child_walk(t, i, k + 1, j);
    }
}

proof fn lemma_shallower_is(t: Seq<NodeView>, depth: int, k: int, i: int)
    requires
        0 <= i < k <= t.len(),
        t[i].depth < depth,
        forall|m: int| i < m < k ==> #[trigger] t[m].depth >= depth,
    ensures
        shallower_before(t, depth, k) == Some(i),
    decreases k,
{
    if k - 1 > i {
        lemma_shallower_is(t, depth, k - 1, i);
    }
}

/// The parent of each child of a node is that node.
pub proof fn children_have_their_parent(t: Seq<NodeView>, i: int, j: int)
    requires
        0 <= i < t.len(),
        0 <= j < children_of(t, i).len(),
    ensures
        0 <= children_of(t, i)[j] < t.len(),
        parent_of(t, children_of(t, i)[j]) == Some(i),
{
    lemma_child_walk(t, i, i + 1, j);
    let c = children_of(t, i)[j];
    lemma_shallower_is(t, t[c].depth as int, c, i);
}

/// The children of the node `i`, in source order.
pub fn children(t: &Vec<AstNode>, i: usize) -> (r: Vec<usize>)
    requires
        i < t.len(),
    ensures
        as_ints(r@) == children_of(tree(t@), i as int),
        forall|j: int| 0 <= j < r@.len() ==> i < #[trigger] r@[j] < t@.len(),
{
    let mut out: Vec<usize> = Vec::new();
    let mut k: usize = i + 1;
    let depth: usize = t[i].depth;
    let ghost v = tree(t@);
    let ghost mut rest: Seq<int> = children_of(v, i as int);
    assert(as_ints(out@) + rest == rest);
    while k < t.len() && t[k].depth > depth
        invariant
            v == tree(t@),
            i < k <= t@.len(),
            depth == v[i as int].depth,
            rest == children_from(v, i as int, k as int),
            as_ints(out@) + rest == children_of(v, i as int),
            forall|j: int| 0 <= j < out@.len() ==> i < #[trigger] out@[j] < t@.len(),
        decreases t@.len() - k,
    {
        let ghost before = as_ints(out@);
        if t[k].depth - depth == 1 {
            out.push(k);
            assert(as_ints(out@) == before.push(k as int));
        }
        proof {
            assert(v[k as int].depth == t@[k as int].depth);
            let next = children_from(v, i as int, k + 1);
            if v[k as int].depth == depth + 1 {
                assert(rest == seq![k as int] + next);
                assert(as_ints(out@) + next == before + rest);
            } else {
                assert(rest == next);
            }
            rest = next;
        }
        k = k + 1;
    }
    assert(rest == Seq::<int>::empty()) by {
        if k < t@.len() {
            assert(v[k as int].depth == t@[k as int].depth);
        }
    }
    assert(as_ints(out@) + rest == as_ints(out@));
    out
}

/// The parent of the node `i`, if it has one.
pub fn parent(t: &Vec<AstNode>, i: usize) -> (r: Option<usize>)
    requires
        i < t.len(),
    ensures
        match r {
            Some(p) => parent_of(tree(t@), i as int) == Some(p as int) && p < i,
            None => parent_of(tree(t@), i as int) is None,
        },
{
    let depth: usize = t[i].depth;
    let mut k: usize = i;
    while k > 0
        invariant
            k <= i < t@.len(),
            depth == tree(t@)[i as int].depth,
            parent_of(tree(t@), i as int) == shallower_before(tree(t@), depth as int, k as int),
        decreases k,
    {
        assert(tree(t@)[k - 1].depth == t@[k - 1].depth);
        if t[k - 1].depth < depth {
            return Some(k - 1);
        }
        k = k - 1;
    }
    None
}

/// The place of a node in the file `path`.
pub fn location_of(path: &str, n: &AstNode) -> (r: Location)
    requires
        n.start.0 < usize::MAX,
        n.start.1 < usize::MAX,
        n.end.0 < usize::MAX,
        n.end.1 < usize::MAX,
    ensures
        r@ == node_location(path@, n@),
{
    Location::new(
        path.to_string(),
        (n.start.0 + 1, n.start.1 + 1),
        (n.end.0 + 1, n.end.1 + 1),
    )
}

} // verus!
