//! Which functions call which, and what can be reached from a function.

use vstd::prelude::*;

use crate::call_order::position_lt;
use crate::order::views;
use crate::paths::{ends_with_path, path_components, path_has_suffix, same_path};
use crate::sdk::{call_views, Location, LocationView, SdkCallView, SdkMethodCall};
use crate::text::{opt_text, same};

verus! {

/// A function or method of a source file.
#[derive(Debug, PartialEq, Eq)]
pub struct FunctionNode {
    pub name: String,
    pub qualified_name: Option<String>,
    pub location: Location,
}

pub struct NodeView {
    pub name: Seq<char>,
    pub qualified_name: Option<Seq<char>>,
    pub location: LocationView,
}

impl View for FunctionNode {
    type V = NodeView;

    open spec fn view(&self) -> NodeView {
        NodeView {
            name: self.name@,
            qualified_name: opt_text(self.qualified_name),
            location: self.location@,
        }
    }
}

impl Clone for FunctionNode {
    fn clone(&self) -> (r: Self)
        ensures
            r@ == self@,
    {
        FunctionNode {
            name: self.name.clone(),
            qualified_name: self.qualified_name.clone(),
            location: self.location.clone(),
        }
    }
}

/// What tells a function from others. The spelling of its path beyond the components does not.
pub struct NodeKey {
    pub name: Seq<char>,
    pub qualified_name: Option<Seq<char>>,
    pub path: Seq<Seq<char>>,
    pub start: (usize, usize),
    pub end: (usize, usize),
}

pub open spec fn node_key(n: NodeView) -> NodeKey {
    NodeKey {
        name: n.name,
        qualified_name: n.qualified_name,
        path: path_components(n.location.file_path),
        start: n.location.start_position,
        end: n.location.end_position,
    }
}

fn same_text_option(a: &Option<String>, b: &Option<String>) -> (r: bool)
    ensures
        r == (opt_text(*a) == opt_text(*b)),
{
    match (a, b) {
        (Some(x), Some(y)) => same(x.as_str(), y.as_str()),
        (None, None) => true,
        _ => false,
    }
}

fn same_position(a: (usize, usize), b: (usize, usize)) -> (r: bool)
    ensures
        r == (a == b),
{
    a.0 == b.0 && a.1 == b.1
}

/// Whether the two stand for the same function.
pub fn same_node(a: &FunctionNode, b: &FunctionNode) -> (r: bool)
    ensures
        r == (node_key(a@) == node_key(b@)),
{
    same(a.name.as_str(), b.name.as_str()) && same_text_option(
        &a.qualified_name,
        &b.qualified_name,
    ) && same_path(a.location.file_path.as_str(), b.location.file_path.as_str()) && same_position(
        a.location.start_position,
        b.location.start_position,
    ) && same_position(a.location.end_position, b.location.end_position)
}

/// The files in which a function is looked for.
#[derive(Debug)]
pub enum FileFilter {
    /// The file of this path.
    Is(String),
    /// The files whose path ends with this one.
    EndsWith(String),
}

pub enum FilterView {
    Is(Seq<char>),
    EndsWith(Seq<char>),
}

impl View for FileFilter {
    type V = FilterView;

    open spec fn view(&self) -> FilterView {
        match self {
            FileFilter::Is(p) => FilterView::Is(p@),
            FileFilter::EndsWith(p) => FilterView::EndsWith(p@),
        }
    }
}

impl FilterView {
    pub open spec fn accepts(self, path: Seq<char>) -> bool {
        match self {
            FilterView::Is(p) => path_components(path) == path_components(p),
            FilterView::EndsWith(p) => path_has_suffix(path, p),
        }
    }
}

impl FileFilter {
    pub fn accepts(&self, path: &str) -> (r: bool)
        ensures
            r == self@.accepts(path@),
    {
        match self {
            FileFilter::Is(p) => same_path(path, p.as_str()),
            FileFilter::EndsWith(p) => ends_with_path(path, p.as_str()),
        }
    }
}

pub open spec fn position_le(a: (usize, usize), b: (usize, usize)) -> bool {
    !position_lt(b, a)
}

/// Whether the function stands in an accepted file, around everything from `start` to `end`.
pub open spec fn encloses(
    n: NodeView,
    file: FilterView,
    start: (usize, usize),
    end: (usize, usize),
) -> bool {
    &&& file.accepts(n.location.file_path)
    &&& position_le(n.location.start_position, start)
    &&& position_le(end, n.location.end_position)
}

/// The lines that a function goes on for.
pub open spec fn span_lines(n: NodeView) -> int {
    n.location.end_position.0 - n.location.start_position.0
}

/// Whether `a` goes on for fewer lines than `b`, or for as many and ends further left.
pub open spec fn span_lt(a: NodeView, b: NodeView) -> bool {
    span_lines(a) < span_lines(b) || (span_lines(a) == span_lines(b) && a.location.end_position.1
        < b.location.end_position.1)
}

/// The position of the first of the smallest functions around everything from `start` to `end`.
pub open spec fn innermost(
    nodes: Seq<NodeView>,
    file: FilterView,
    start: (usize, usize),
    end: (usize, usize),
) -> Option<int>
    decreases nodes.len(),
{
    if nodes.len() == 0 {
        None
    } else {
        let best = innermost(nodes.drop_last(), file, start, end);
        if encloses(nodes.last(), file, start, end) && (best is None || span_lt(
            nodes.last(),
            nodes[best->0],
        )) {
            Some(nodes.len() - 1)
        } else {
            best
        }
    }
}

/// No function around everything from `start` to `end` ends on a line before its first.
pub open spec fn spans_run_forward(
    nodes: Seq<NodeView>,
    file: FilterView,
    start: (usize, usize),
    end: (usize, usize),
) -> bool {
    forall|i: int|
        0 <= i < nodes.len() && encloses(#[trigger] nodes[i], file, start, end) ==> span_lines(
            nodes[i],
        ) >= 0
}

proof fn lemma_innermost(
    nodes: Seq<NodeView>,
    file: FilterView,
    start: (usize, usize),
    end: (usize, usize),
)
    ensures
        match innermost(nodes, file, start, end) {
            Some(i) => 0 <= i < nodes.len() && encloses(nodes[i], file, start, end) && (forall|j: int|
                0 <= j < nodes.len() && encloses(#[trigger] nodes[j], file, start, end)
                    ==> !span_lt(nodes[j], nodes[i]) && (j < i ==> span_lt(nodes[i], nodes[j]))),
            None => forall|j: int|
                0 <= j < nodes.len() ==> !encloses(#[trigger] nodes[j], file, start, end),
        },
    decreases nodes.len(),
{
    if nodes.len() > 0 {
        let t = nodes.drop_last();
        lemma_innermost(t, file, start, end);
        assert forall|j: int| 0 <= j < t.len() implies t[j] == #[trigger] nodes[j] by {}
    }
}

/// The function that is found encloses the range, no other that does is smaller, and those before
/// it are larger.
pub proof fn innermost_is_smallest(
    nodes: Seq<NodeView>,
    file: FilterView,
    start: (usize, usize),
    end: (usize, usize),
    i: int,
    j: int,
)
    requires
        innermost(nodes, file, start, end) == Some(i),
        0 <= j < nodes.len(),
        encloses(nodes[j], file, start, end),
    ensures
        0 <= i < nodes.len(),
        encloses(nodes[i], file, start, end),
        !span_lt(nodes[j], nodes[i]),
        j < i ==> span_lt(nodes[i], nodes[j]),
{
    lemma_innermost(nodes, file, start, end);
}

/// A function is found exactly where one encloses the range.
pub proof fn innermost_is_found(
    nodes: Seq<NodeView>,
    file: FilterView,
    start: (usize, usize),
    end: (usize, usize),
)
    ensures
        innermost(nodes, file, start, end) is Some <==> exists|i: int|
            0 <= i < nodes.len() && encloses(#[trigger] nodes[i], file, start, end),
{
    lemma_innermost(nodes, file, start, end);
}

fn position_before(a: (usize, usize), b: (usize, usize)) -> (r: bool)
    ensures
        r == position_lt(a, b),
{
    a.0 < b.0 || (a.0 == b.0 && a.1 < b.1)
}

fn innermost_range<'a>(
    nodes: &'a Vec<FunctionNode>,
    file: &FileFilter,
    start: (usize, usize),
    end: (usize, usize),
) -> (r: Option<&'a FunctionNode>)
    requires
        spans_run_forward(views(nodes@), file@, start, end),
    ensures
        match r {
            Some(n) => innermost(views(nodes@), file@, start, end) matches Some(i) && 0 <= i
                < nodes@.len() && *n == nodes@[i],
            None => innermost(views(nodes@), file@, start, end) is None,
        },
{
    let ghost s = views(nodes@);
    let mut best: Option<usize> = None;
    let mut k: usize = 0;
    while k < nodes.len()
        invariant
            k <= nodes@.len(),
            s == views(nodes@),
            spans_run_forward(s, file@, start, end),
            match best {
                Some(i) => i < k && innermost(s.subrange(0, k as int), file@, start, end) == Some(
                    i as int,
                ),
                None => innermost(s.subrange(0, k as int), file@, start, end) is None,
            },
        decreases nodes@.len() - k,
    {
        let n = &nodes[k];
        let ghost u = s.subrange(0, k + 1);
        assert(u.drop_last() =~= s.subrange(0, k as int));
        assert(u.last() == n@);
        assert(s[k as int] == n@);
        if file.accepts(n.location.file_path.as_str()) && !position_before(
            start,
            n.location.start_position,
        ) && !position_before(n.location.end_position, end) {
            assert(encloses(s[k as int], file@, start, end));
            match best {
                None => {
                    best = Some(k);
                },
                Some(i) => {
                    proof {
                        let t = s.subrange(0, k as int);
                        lemma_innermost(t, file@, start, end);
                        assert(t[i as int] == s[i as int]);
                        assert(s[i as int] == nodes@[i as int]@);
                        assert(u[i as int] == s[i as int]);
                        assert(encloses(s[i as int], file@, start, end));
                    }
                    let m = &nodes[i];
                    let lines: usize = n.location.end_position.0 - n.location.start_position.0;
                    let fewest: usize = m.location.end_position.0 - m.location.start_position.0;
                    if lines < fewest || (lines == fewest && n.location.end_position.1
                        < m.location.end_position.1) {
                        best = Some(k);
                    }
                },
            }
        }
        k = k + 1;
    }
    assert(s.subrange(0, s.len() as int) =~= s);
    match best {
        Some(i) => Some(&nodes[i]),
        None => None,
    }
}

/// The smallest function around a position in the accepted files; the first of several.
pub fn innermost_enclosing<'a>(
    nodes: &'a Vec<FunctionNode>,
    position: (usize, usize),
    file: &FileFilter,
) -> (r: Option<&'a FunctionNode>)
    ensures
        match r {
            Some(n) => innermost(views(nodes@), file@, position, position) matches Some(i) && 0 <= i
                < nodes@.len() && *n == nodes@[i],
            None => innermost(views(nodes@), file@, position, position) is None,
        },
{
    innermost_range(nodes, file, position, position)
}

/// The callees that the edges have for a function: those of its last entry.
pub open spec fn callees(edges: Seq<(NodeView, Seq<NodeView>)>, caller: NodeKey) -> Seq<NodeView>
    decreases edges.len(),
{
    if edges.len() == 0 {
        Seq::empty()
    } else if node_key(edges.last().0) == caller {
        edges.last().1
    } else {
        callees(edges.drop_last(), caller)
    }
}

/// Whether `caller` calls `callee` itself.
pub open spec fn calls(
    edges: Seq<(NodeView, Seq<NodeView>)>,
    caller: NodeKey,
    callee: NodeKey,
) -> bool {
    exists|i: int|
        0 <= i < callees(edges, caller).len() && node_key(#[trigger] callees(edges, caller)[i])
            == callee
}

/// Whether each function of the chain calls the next one.
pub open spec fn is_chain(edges: Seq<(NodeView, Seq<NodeView>)>, chain: Seq<NodeKey>) -> bool {
    forall|i: int| 0 <= i < chain.len() - 1 ==> calls(edges, #[trigger] chain[i], chain[i + 1])
}

/// Whether a chain of calls, of any length, leads from `from` to `to`.
pub open spec fn reaches(
    edges: Seq<(NodeView, Seq<NodeView>)>,
    from: NodeKey,
    to: NodeKey,
) -> bool {
    exists|chain: Seq<NodeKey>| #[trigger]
        is_chain(edges, chain) && chain.len() > 0 && chain[0] == from && chain.last() == to
}

/// Every function is reached from itself.
pub proof fn functions_reach_themselves(edges: Seq<(NodeView, Seq<NodeView>)>, a: NodeKey)
    ensures
        reaches(edges, a, a),
{
    assert(is_chain(edges, seq![a]));
}

proof fn lemma_reaches_step(
    edges: Seq<(NodeView, Seq<NodeView>)>,
    a: NodeKey,
    b: NodeKey,
    c: NodeKey,
)
    requires
        reaches(edges, a, b),
        calls(edges, b, c),
    ensures
        reaches(edges, a, c),
{
    let chain = choose|chain: Seq<NodeKey>| #[trigger]
        is_chain(edges, chain) && chain.len() > 0 && chain[0] == a && chain.last() == b;
    let longer = chain.push(c);
    assert forall|i: int| 0 <= i < longer.len() - 1 implies calls(
        edges,
        #[trigger] longer[i],
        longer[i + 1],
    ) by {
        if i < chain.len() - 1 {
            assert(chain[i] == longer[i] && chain[i + 1] == longer[i + 1]);
        }
    }
    assert(is_chain(edges, longer));
}

/// What is reached from something that is reached is reached too.
pub proof fn reaching_is_transitive(
    edges: Seq<(NodeView, Seq<NodeView>)>,
    a: NodeKey,
    b: NodeKey,
    c: NodeKey,
)
    requires
        reaches(edges, a, b),
        reaches(edges, b, c),
    ensures
        reaches(edges, a, c),
{
    let x = choose|chain: Seq<NodeKey>| #[trigger]
        is_chain(edges, chain) && chain.len() > 0 && chain[0] == a && chain.last() == b;
    let y = choose|chain: Seq<NodeKey>| #[trigger]
        is_chain(edges, chain) && chain.len() > 0 && chain[0] == b && chain.last() == c;
    let z = x.drop_last() + y;
    assert forall|i: int| 0 <= i < z.len() - 1 implies calls(edges, #[trigger] z[i], z[i + 1]) by {
        if i < x.len() - 1 {
            assert(z[i] == x[i]);
            assert(z[i + 1] == x[i + 1]);
        } else {
            assert(z[i] == y[i - (x.len() - 1)]);
            assert(z[i + 1] == y[i - (x.len() - 1) + 1]);
        }
    }
    assert(is_chain(edges, z));
    assert(z[0] == a);
    assert(z.last() == c);
}

/// A set that holds `from` and with each function its callees holds all that `from` reaches.
proof fn lemma_closed_set(
    edges: Seq<(NodeView, Seq<NodeView>)>,
    set: Set<NodeKey>,
    chain: Seq<NodeKey>,
)
    requires
        is_chain(edges, chain),
        chain.len() > 0,
        set.contains(chain[0]),
        forall|a: NodeKey, b: NodeKey| set.contains(a) && #[trigger] calls(edges, a, b)
            ==> set.contains(b),
    ensures
        set.contains(chain.last()),
    decreases chain.len(),
{
    if chain.len() > 1 {
        let t = chain.drop_last();
        assert forall|i: int| 0 <= i < t.len() - 1 implies calls(
            edges,
            #[trigger] t[i],
            t[i + 1],
        ) by {
            assert(t[i] == chain[i] && t[i + 1] == chain[i + 1]);
        }
        lemma_closed_set(edges, set, t);
        assert(calls(edges, chain[chain.len() - 2], chain[chain.len() - 2 + 1]));
    }
}

/// The keys of functions.
pub open spec fn node_keys(nodes: Seq<NodeView>) -> Seq<NodeKey> {
    nodes.map_values(|n: NodeView| node_key(n))
}

/// All functions that occur as callees.
spec fn all_callees(edges: Seq<(NodeView, Seq<NodeView>)>) -> Seq<NodeView>
    decreases edges.len(),
{
    if edges.len() == 0 {
        Seq::empty()
    } else {
        all_callees(edges.drop_last()) + edges.last().1
    }
}

proof fn lemma_callees_known(edges: Seq<(NodeView, Seq<NodeView>)>, a: NodeKey, b: NodeKey)
    requires
        calls(edges, a, b),
    ensures
        node_keys(all_callees(edges)).contains(b),
    decreases edges.len(),
{
    if edges.len() > 0 {
        let t = edges.drop_last();
        let all = all_callees(edges);
        let last = edges.last().1;
        if node_key(edges.last().0) == a {
            let i = choose|i: int|
                0 <= i < callees(edges, a).len() && node_key(#[trigger] callees(edges, a)[i]) == b;
            let k = all_callees(t).len() + i;
            assert(all[k] == last[i]);
            assert(node_keys(all)[k] == b);
        } else {
            assert(callees(edges, a) == callees(t, a));
            let i = choose|i: int|
                0 <= i < callees(edges, a).len() && node_key(#[trigger] callees(edges, a)[i]) == b;
            assert(node_key(callees(t, a)[i]) == b);
            assert(calls(t, a, b));
            lemma_callees_known(t, a, b);
            let k = choose|k: int|
                0 <= k < node_keys(all_callees(t)).len() && node_keys(all_callees(t))[k] == b;
            assert(all[k] == all_callees(t)[k]);
            assert(node_keys(all)[k] == b);
        }
    }
}

/// The functions of some source files and the calls between them.
#[derive(Debug)]
pub struct CallGraph {
    nodes: Vec<FunctionNode>,
    edges: Vec<(FunctionNode, Vec<FunctionNode>)>,
}

pub struct GraphView {
    pub nodes: Seq<NodeView>,
    pub edges: Seq<(NodeView, Seq<NodeView>)>,
}

pub open spec fn edge_view(e: (FunctionNode, Vec<FunctionNode>)) -> (NodeView, Seq<NodeView>) {
    (e.0@, views(e.1@))
}

pub open spec fn edge_views(
    v: Seq<(FunctionNode, Vec<FunctionNode>)>,
) -> Seq<(NodeView, Seq<NodeView>)> {
    v.map_values(|e: (FunctionNode, Vec<FunctionNode>)| edge_view(e))
}

impl View for CallGraph {
    type V = GraphView;

    closed spec fn view(&self) -> GraphView {
        GraphView { nodes: views(self.nodes@), edges: edge_views(self.edges@) }
    }
}

/// The place of the function around everything of `l`, if there is one.
pub open spec fn enclosing(nodes: Seq<NodeView>, l: LocationView) -> Option<int> {
    innermost(nodes, FilterView::Is(l.file_path), l.start_position, l.end_position)
}

/// No function around `l` ends on a line before its first.
pub open spec fn enclosing_spans_fit(nodes: Seq<NodeView>, l: LocationView) -> bool {
    spans_run_forward(nodes, FilterView::Is(l.file_path), l.start_position, l.end_position)
}

/// Whether the call stands in a function that is reached from `entry`.
pub open spec fn is_reached(g: GraphView, entry: NodeView, call: SdkCallView) -> bool {
    match call.metadata {
        Some(m) => match enclosing(g.nodes, m.location) {
            Some(i) => reaches(g.edges, node_key(entry), node_key(g.nodes[i])),
            None => false,
        },
        None => false,
    }
}

/// The calls that stand in functions reached from `entry`, in their order.
pub open spec fn calls_reached(
    g: GraphView,
    entry: NodeView,
    calls: Seq<SdkCallView>,
) -> Seq<SdkCallView>
    decreases calls.len(),
{
    if calls.len() == 0 {
        calls
    } else if is_reached(g, entry, calls.last()) {
        calls_reached(g, entry, calls.drop_last()).push(calls.last())
    } else {
        calls_reached(g, entry, calls.drop_last())
    }
}

/// No function around one of the calls ends on a line before its first.
pub open spec fn call_spans_fit(g: GraphView, calls: Seq<SdkCallView>) -> bool {
    forall|i: int|
        0 <= i < calls.len() ==> match (#[trigger] calls[i]).metadata {
            Some(m) => enclosing_spans_fit(g.nodes, m.location),
            None => true,
        }
}

impl CallGraph {
    pub fn new(
        nodes: Vec<FunctionNode>,
        edges: Vec<(FunctionNode, Vec<FunctionNode>)>,
    ) -> (r: Self)
        ensures
            r@ == (GraphView { nodes: views(nodes@), edges: edge_views(edges@) }),
    {
        CallGraph { nodes, edges }
    }

    pub fn nodes(&self) -> (r: &Vec<FunctionNode>)
        ensures
            views(r@) == self@.nodes,
    {
        &self.nodes
    }

    fn entry_of(&self, node: &FunctionNode) -> (r: Option<usize>)
        ensures
            match r {
                Some(i) => i < self.edges@.len() && callees(self@.edges, node_key(node@)) == views(
                    self.edges@[i as int].1@,
                ),
                None => callees(self@.edges, node_key(node@)) == Seq::<NodeView>::empty(),
            },
    {
        let ghost s = self@.edges;
        let mut i: usize = self.edges.len();
        assert(s.subrange(0, s.len() as int) =~= s);
        while i > 0
            invariant
                i <= self.edges@.len(),
                s == edge_views(self.edges@),
                callees(s, node_key(node@)) == callees(s.subrange(0, i as int), node_key(node@)),
            decreases i,
        {
            let ghost u = s.subrange(0, i as int);
            assert(u.last() == edge_view(self.edges@[i - 1]));
            assert(u.drop_last() =~= s.subrange(0, i - 1));
            i = i - 1;
            if same_node(&self.edges[i].0, node) {
                return Some(i);
            }
        }
        None
    }

    /// The functions that `node` calls.
    pub fn outgoing(&self, node: &FunctionNode) -> (r: Vec<FunctionNode>)
        ensures
            views(r@) == callees(self@.edges, node_key(node@)),
    {
        match self.entry_of(node) {
            Some(i) => {
                let r = self.edges[i].1.clone();
                assert(views(r@) =~= views(self.edges@[i as int].1@));
                r
            },
            None => {
                let r: Vec<FunctionNode> = Vec::new();
                assert(views(r@) =~= Seq::<NodeView>::empty());
                r
            },
        }
    }

    /// The smallest function around everything of `location`; the first of several.
    pub fn enclosing_function(&self, location: &Location) -> (r: Option<&FunctionNode>)
        requires
            enclosing_spans_fit(self@.nodes, location@),
        ensures
            match r {
                Some(n) => enclosing(self@.nodes, location@) matches Some(i) && 0 <= i
                    < self@.nodes.len() && n@ == self@.nodes[i],
                None => enclosing(self@.nodes, location@) is None,
            },
    {
        let file = FileFilter::Is(location.file_path.clone());
        let r = innermost_range(
            &self.nodes,
            &file,
            location.start_position,
            location.end_position,
        );
        r
    }

    /// The functions that chains of calls lead to from `from`, itself among them, each once.
    pub fn reachable_set(&self, from: &FunctionNode) -> (r: Vec<FunctionNode>)
        ensures
            forall|k: NodeKey|
                node_keys(views(r@)).contains(k) <==> #[trigger] reaches(
                    self@.edges,
                    node_key(from@),
                    k,
                ),
            node_keys(views(r@)).no_duplicates(),
    {
        let ghost e = self@.edges;
        let ghost start = node_key(from@);
        let ghost universe = (seq![start] + node_keys(all_callees(e))).to_set();
        let mut seen: Vec<FunctionNode> = Vec::new();
        seen.push(from.clone());
        let mut i: usize = 0;
        proof {
            functions_reach_themselves(e, start);
            assert((seq![start] + node_keys(all_callees(e)))[0] == start);
            assert(node_keys(views(seen@)) =~= seq![start]);
        }
        while i < seen.len()
            invariant
                e == self@.edges,
                start == node_key(from@),
                universe == (seq![start] + node_keys(all_callees(e))).to_set(),
                i <= seen@.len(),
                seen@.len() > 0,
                seen@[0]@ == from@,
                node_keys(views(seen@)).no_duplicates(),
                forall|j: int|
                    0 <= j < seen@.len() ==> reaches(e, start, node_key((#[trigger] seen@[j])@))
                        && universe.contains(node_key(seen@[j]@)),
                forall|j: int, b: NodeKey|
                    0 <= j < i && #[trigger] calls(e, node_key((#[trigger] seen@[j])@), b)
                        ==> node_keys(views(seen@)).contains(b),
            decreases universe.len() + 1 - i,
        {
            proof {
                lemma_no_more_than(node_keys(views(seen@)), universe);
            }
            let found = self.outgoing(&seen[i]);
            let ghost current = node_key(seen@[i as int]@);
            let mut j: usize = 0;
            while j < found.len()
                invariant
                    e == self@.edges,
                    start == node_key(from@),
                    universe == (seq![start] + node_keys(all_callees(e))).to_set(),
                    i < seen@.len(),
                    j <= found@.len(),
                    views(found@) == callees(e, current),
                    current == node_key(seen@[i as int]@),
                    seen@[0]@ == from@,
                    node_keys(views(seen@)).no_duplicates(),
                    forall|j: int|
                        0 <= j < seen@.len() ==> reaches(e, start, node_key((#[trigger] seen@[j])@))
                            && universe.contains(node_key(seen@[j]@)),
                    forall|k: int, b: NodeKey|
                        0 <= k < i && #[trigger] calls(e, node_key((#[trigger] seen@[k])@), b)
                            ==> node_keys(views(seen@)).contains(b),
                    forall|k: int|
                        0 <= k < j ==> node_keys(views(seen@)).contains(
                            node_key((#[trigger] found@[k])@),
                        ),
                decreases found@.len() - j,
            {
                let ghost keys = node_keys(views(seen@));
                let ghost b = node_key(found@[j as int]@);
                proof {
                    assert(callees(e, current)[j as int] == found@[j as int]@);
                    assert(calls(e, current, b));
                    lemma_reaches_step(e, start, current, b);
                    lemma_callees_known(e, current, b);
                    let all = node_keys(all_callees(e));
                    let k = choose|k: int| 0 <= k < all.len() && all[k] == b;
                    assert((seq![start] + all)[k + 1] == b);
                }
                if !contains_node(&seen, &found[j]) {
                    let ghost before = seen@;
                    seen.push(found[j].clone());
                    proof {
                        let after = node_keys(views(seen@));
                        assert(after =~= keys.push(b));
                        assert forall|x: NodeKey| keys.contains(x) implies after.contains(x) by {
                            let p = choose|p: int| 0 <= p < keys.len() && keys[p] == x;
                            assert(after[p] == x);
                        }
                        assert(after[keys.len() as int] == b);
                        assert forall|k: int| 0 <= k < before.len() implies #[trigger] seen@[k]
                            == before[k] by {}
                    }
                }
                j = j + 1;
            }
            proof {
                let keys = node_keys(views(seen@));
                assert forall|k: int, b: NodeKey|
                    0 <= k < i + 1 && #[trigger] calls(
                        e,
                        node_key((#[trigger] seen@[k])@),
                        b,
                    ) implies keys.contains(b) by {
                    if k == i {
                        let c = callees(e, current);
                        let p = choose|p: int| 0 <= p < c.len() && node_key(#[trigger] c[p]) == b;
                        assert(c[p] == views(found@)[p]);
                        assert(found@[p]@ == c[p]);
                    }
                }
                lemma_no_more_than(keys, universe);
            }
            i = i + 1;
        }
        proof {
            let keys = node_keys(views(seen@));
            let set = keys.to_set();
            assert(keys[0] == start);
            assert forall|a: NodeKey, b: NodeKey|
                set.contains(a) && #[trigger] calls(e, a, b) implies set.contains(b) by {
                let p = choose|p: int| 0 <= p < keys.len() && keys[p] == a;
                assert(keys[p] == node_key(seen@[p]@));
                assert(calls(e, node_key(seen@[p]@), b));
            }
            assert forall|k: NodeKey| keys.contains(k) <==> #[trigger] reaches(e, start, k) by {
                if keys.contains(k) {
                    let p = choose|p: int| 0 <= p < keys.len() && keys[p] == k;
                    assert(keys[p] == node_key(seen@[p]@));
                }
                if reaches(e, start, k) {
                    let chain = choose|chain: Seq<NodeKey>| #[trigger]
                        is_chain(e, chain) && chain.len() > 0 && chain[0] == start && chain.last()
                            == k;
                    lemma_closed_set(e, set, chain);
                }
            }
        }
        seen
    }

    /// For each entry point the calls that stand in functions which it reaches.
    pub fn partition_calls(
        &self,
        entry_points: &Vec<FunctionNode>,
        sdk_calls: &Vec<SdkMethodCall>,
    ) -> (r: Vec<(FunctionNode, Vec<SdkMethodCall>)>)
        requires
            call_spans_fit(self@, call_views(sdk_calls@)),
        ensures
            r@.len() == entry_points@.len(),
            forall|i: int|
                0 <= i < r@.len() ==> (#[trigger] r@[i]).0@ == entry_points@[i]@ && call_views(
                    r@[i].1@,
                ) == calls_reached(self@, entry_points@[i]@, call_views(sdk_calls@)),
    {
        let mut results: Vec<(FunctionNode, Vec<SdkMethodCall>)> = Vec::new();
        let mut i: usize = 0;
        while i < entry_points.len()
            invariant
                i <= entry_points@.len(),
                results@.len() == i,
                call_spans_fit(self@, call_views(sdk_calls@)),
                forall|k: int|
                    0 <= k < i ==> (#[trigger] results@[k]).0@ == entry_points@[k]@ && call_views(
                        results@[k].1@,
                    ) == calls_reached(self@, entry_points@[k]@, call_views(sdk_calls@)),
            decreases entry_points@.len() - i,
        {
            let entry = &entry_points[i];
            let reached = self.calls_of(entry, sdk_calls);
            results.push((entry.clone(), reached));
            i = i + 1;
        }
        results
    }

    fn calls_of(&self, entry: &FunctionNode, sdk_calls: &Vec<SdkMethodCall>) -> (r: Vec<
        SdkMethodCall,
    >)
        requires
            call_spans_fit(self@, call_views(sdk_calls@)),
        ensures
            call_views(r@) == calls_reached(self@, entry@, call_views(sdk_calls@)),
    {
        let ghost s = call_views(sdk_calls@);
        let ghost g = self@;
        let reachable = self.reachable_set(entry);
        let mut out: Vec<SdkMethodCall> = Vec::new();
        let mut i: usize = 0;
        assert(call_views(out@) =~= s.subrange(0, 0));
        while i < sdk_calls.len()
            invariant
                i <= sdk_calls@.len(),
                s == call_views(sdk_calls@),
                g == self@,
                call_spans_fit(g, s),
                forall|k: NodeKey|
                    node_keys(views(reachable@)).contains(k) <==> #[trigger] reaches(
                        g.edges,
                        node_key(entry@),
                        k,
                    ),
                call_views(out@) == calls_reached(g, entry@, s.subrange(0, i as int)),
            decreases sdk_calls@.len() - i,
        {
            let ghost u = s.subrange(0, i + 1);
            let call = &sdk_calls[i];
            assert(u.drop_last() =~= s.subrange(0, i as int));
            assert(u.last() == call@);
            assert(s[i as int] == call@);
            let ghost before = call_views(out@);
            if let Some(m) = &call.metadata {
                if let Some(n) = self.enclosing_function(&m.location) {
                    if contains_node(&reachable, n) {
                        out.push(call.clone());
                        assert(call_views(out@) =~= before.push(call@));
                    }
                }
            }
            i = i + 1;
        }
        assert(s.subrange(0, s.len() as int) =~= s);
        out
    }
}

/// Whether the function is among the nodes.
pub fn contains_node(nodes: &Vec<FunctionNode>, node: &FunctionNode) -> (r: bool)
    ensures
        r == node_keys(views(nodes@)).contains(node_key(node@)),
{
    let ghost keys = node_keys(views(nodes@));
    let mut i: usize = 0;
    while i < nodes.len()
        invariant
            i <= nodes@.len(),
            keys == node_keys(views(nodes@)),
            forall|j: int| 0 <= j < i ==> keys[j] != node_key(node@),
        decreases nodes@.len() - i,
    {
        assert(keys[i as int] == node_key(nodes@[i as int]@));
        if same_node(&nodes[i], node) {
            return true;
        }
        i = i + 1;
    }
    false
}

proof fn lemma_no_more_than(s: Seq<NodeKey>, universe: Set<NodeKey>)
    requires
        s.no_duplicates(),
        universe.finite(),
        forall|i: int| 0 <= i < s.len() ==> universe.contains(#[trigger] s[i]),
    ensures
        s.len() <= universe.len(),
{
    s.unique_seq_to_set();
    assert(s.to_set().subset_of(universe));
    vstd::set_lib::lemma_len_subset(s.to_set(), universe);
}

} // verus!
