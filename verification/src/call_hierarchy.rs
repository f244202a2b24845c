//! A call graph from the replies of a language server.

use vstd::prelude::*;

use crate::call_graph::{
    edge_views, encloses, innermost, innermost_enclosing, innermost_is_found,
    innermost_is_smallest, CallGraph, FileFilter, FilterView, FunctionNode, GraphView, NodeView,
};
use crate::lsp::{path_of_url, url_path};
use crate::order::views;
use crate::paths::{contains_path, has_path, path_components};
use crate::sdk::{Location, LocationView};
use crate::text::{opt_text, texts};

verus! {

/// A position as the protocol counts: from zero.
#[derive(Debug, Clone, Copy, PartialEq, Eq, Structural)]
pub struct LspPosition {
    pub line: u32,
    pub character: u32,
}

#[derive(Debug, Clone, Copy, PartialEq, Eq, Structural)]
pub struct LspRange {
    pub start: LspPosition,
    pub end: LspPosition,
}

impl LspPosition {
    /// Whether the position can be counted from one.
    pub open spec fn fits(self) -> bool {
        self.line < u32::MAX && self.character < u32::MAX
    }

    /// The position counted from one.
    pub open spec fn from_one(self) -> (usize, usize) {
        ((self.line + 1) as usize, (self.character + 1) as usize)
    }

    fn counted(&self) -> (r: (usize, usize))
        requires
            self.fits(),
        ensures
            r == self.from_one(),
    {
        (self.line as usize + 1, self.character as usize + 1)
    }
}

impl LspRange {
    pub open spec fn fits(self) -> bool {
        self.start.fits() && self.end.fits()
    }
}

/// The place of a range in the file of a URL.
pub open spec fn lsp_location(uri: Seq<char>, range: LspRange) -> Option<LocationView> {
    match path_of_url(uri) {
        Some(p) => Some(
            LocationView {
                file_path: p,
                start_position: range.start.from_one(),
                end_position: range.end.from_one(),
            },
        ),
        None => None,
    }
}

pub open spec fn opt_location(o: Option<Location>) -> Option<LocationView> {
    match o {
        Some(l) => Some(l@),
        None => None,
    }
}

impl Location {
    /// The place of a range in the file of a URL; none if the URL is not that of a file.
    pub fn from_lsp(uri: &str, range: LspRange) -> (r: Option<Location>)
        requires
            range.fits(),
        ensures
            opt_location(r) == lsp_location(uri@, range),
    {
        match url_path(uri) {
            Some(p) => Some(Location::new(p, range.start.counted(), range.end.counted())),
            None => None,
        }
    }
}

/// What a symbol is.
#[derive(Debug, Clone, Copy, PartialEq, Eq, Structural)]
pub enum SymbolKind {
    Function,
    Method,
    Other,
}

/// A symbol with the place of its name.
#[derive(Debug)]
pub struct NestedSymbol {
    pub name: String,
    pub detail: Option<String>,
    pub kind: SymbolKind,
    pub range: LspRange,
    pub selection_range: LspRange,
}

/// A symbol of which only the whole place is known.
#[derive(Debug)]
pub struct FlatSymbol {
    pub name: String,
    pub container_name: Option<String>,
    pub kind: SymbolKind,
    pub range: LspRange,
}

/// The symbols of a document.
#[derive(Debug)]
pub enum SymbolReply {
    Nested(Vec<NestedSymbol>),
    Flat(Vec<FlatSymbol>),
}

/// A function with the place at which the server is asked for its calls.
#[derive(Debug)]
pub struct DeclaredFunction {
    pub node: FunctionNode,
    pub uri: String,
    pub name_position: LspPosition,
}

pub struct DeclaredView {
    pub node: NodeView,
    pub uri: Seq<char>,
    pub name_position: LspPosition,
}

impl View for DeclaredFunction {
    type V = DeclaredView;

    open spec fn view(&self) -> DeclaredView {
        DeclaredView { node: self.node@, uri: self.uri@, name_position: self.name_position }
    }
}

pub open spec fn is_function(k: SymbolKind) -> bool {
    k == SymbolKind::Function || k == SymbolKind::Method
}

/// What a symbol of the document `uri` declares. A symbol that is no function declares nothing.
pub open spec fn declared(
    uri: Seq<char>,
    name: Seq<char>,
    qualified_name: Option<Seq<char>>,
    kind: SymbolKind,
    range: LspRange,
    name_position: LspPosition,
) -> Option<DeclaredView> {
    if !is_function(kind) {
        None
    } else {
        match lsp_location(uri, range) {
            Some(location) => Some(
                DeclaredView { node: NodeView { name, qualified_name, location }, uri, name_position },
            ),
            None => None,
        }
    }
}

pub open spec fn opt_declared(o: Option<DeclaredFunction>) -> Option<DeclaredView> {
    match o {
        Some(d) => Some(d@),
        None => None,
    }
}

/// The list with the item behind it, if there is one.
pub open spec fn pushed<A>(s: Seq<A>, o: Option<A>) -> Seq<A> {
    match o {
        Some(x) => s.push(x),
        None => s,
    }
}

pub open spec fn nested_declares(uri: Seq<char>, s: NestedSymbol) -> Option<DeclaredView> {
    declared(uri, s.name@, opt_text(s.detail), s.kind, s.range, s.selection_range.start)
}

pub open spec fn flat_declares(uri: Seq<char>, s: FlatSymbol) -> Option<DeclaredView> {
    declared(uri, s.name@, opt_text(s.container_name), s.kind, s.range, s.range.start)
}

pub open spec fn nested_functions(uri: Seq<char>, v: Seq<NestedSymbol>) -> Seq<DeclaredView>
    decreases v.len(),
{
    if v.len() == 0 {
        Seq::empty()
    } else {
        pushed(nested_functions(uri, v.drop_last()), nested_declares(uri, v.last()))
    }
}

pub open spec fn flat_functions(uri: Seq<char>, v: Seq<FlatSymbol>) -> Seq<DeclaredView>
    decreases v.len(),
{
    if v.len() == 0 {
        Seq::empty()
    } else {
        pushed(flat_functions(uri, v.drop_last()), flat_declares(uri, v.last()))
    }
}

/// The functions that the symbols of a document declare.
pub open spec fn functions_in(uri: Seq<char>, reply: SymbolReply) -> Seq<DeclaredView> {
    match reply {
        SymbolReply::Nested(v) => nested_functions(uri, v@),
        SymbolReply::Flat(v) => flat_functions(uri, v@),
    }
}

pub open spec fn symbol_ranges_fit(reply: SymbolReply) -> bool {
    match reply {
        SymbolReply::Nested(v) => forall|i: int| 0 <= i < v@.len() ==> (#[trigger] v@[i]).range.fits(),
        SymbolReply::Flat(v) => forall|i: int| 0 <= i < v@.len() ==> (#[trigger] v@[i]).range.fits(),
    }
}

fn declare(
    uri: &str,
    name: &String,
    qualified_name: &Option<String>,
    kind: SymbolKind,
    range: LspRange,
    name_position: LspPosition,
) -> (r: Option<DeclaredFunction>)
    requires
        range.fits(),
    ensures
        opt_declared(r) == declared(
            uri@,
            name@,
            opt_text(*qualified_name),
            kind,
            range,
            name_position,
        ),
{
    match kind {
        SymbolKind::Other => None,
        _ => match Location::from_lsp(uri, range) {
            Some(location) => {
                let node = FunctionNode {
                    name: name.clone(),
                    qualified_name: qualified_name.clone(),
                    location,
                };
                Some(DeclaredFunction { node, uri: uri.to_string(), name_position })
            },
            None => None,
        },
    }
}

/// The functions and methods among the symbols of the document `uri`.
pub fn declared_functions(uri: &str, reply: &SymbolReply) -> (r: Vec<DeclaredFunction>)
    requires
        symbol_ranges_fit(*reply),
    ensures
        views(r@) == functions_in(uri@, *reply),
{
    let mut out: Vec<DeclaredFunction> = Vec::new();
    assert(views(out@) =~= Seq::<DeclaredView>::empty());
    let mut i: usize = 0;
    match reply {
        SymbolReply::Nested(v) => {
            let ghost s = v@;
            assert(s.subrange(0, 0).len() == 0);
            while i < v.len()
                invariant
                    i <= v@.len(),
                    s == v@,
                    forall|k: int| 0 <= k < v@.len() ==> (#[trigger] v@[k]).range.fits(),
                    views(out@) == nested_functions(uri@, s.subrange(0, i as int)),
                decreases v@.len() - i,
            {
                let ghost u = s.subrange(0, i + 1);
                let ghost before = views(out@);
                assert(u.drop_last() =~= s.subrange(0, i as int));
                let x = &v[i];
                assert(u.last() == *x);
                let d = declare(
                    uri,
                    &x.name,
                    &x.detail,
                    x.kind,
                    x.range,
                    x.selection_range.start,
                );
                if let Some(f) = d {
                    out.push(f);
                    assert(views(out@) =~= before.push(f@));
                }
                i = i + 1;
            }
            assert(s.subrange(0, s.len() as int) =~= s);
        },
        SymbolReply::Flat(v) => {
            let ghost s = v@;
            assert(s.subrange(0, 0).len() == 0);
            while i < v.len()
                invariant
                    i <= v@.len(),
                    s == v@,
                    forall|k: int| 0 <= k < v@.len() ==> (#[trigger] v@[k]).range.fits(),
                    views(out@) == flat_functions(uri@, s.subrange(0, i as int)),
                decreases v@.len() - i,
            {
                let ghost u = s.subrange(0, i + 1);
                let ghost before = views(out@);
                assert(u.drop_last() =~= s.subrange(0, i as int));
                let x = &v[i];
                assert(u.last() == *x);
                let d = declare(uri, &x.name, &x.container_name, x.kind, x.range, x.range.start);
                if let Some(f) = d {
                    out.push(f);
                    assert(views(out@) =~= before.push(f@));
                }
                i = i + 1;
            }
            assert(s.subrange(0, s.len() as int) =~= s);
        },
    }
    out
}

/// A call that a function makes: the place of what it calls.
#[derive(Debug)]
pub struct OutgoingCall {
    pub uri: String,
    pub range: LspRange,
}

/// The function that a call leads to: the innermost one at the place that the server gives, if
/// that is in one of the source files. Names do not tell, since the server spells those of methods
/// in two ways.
pub open spec fn callee(
    nodes: Seq<NodeView>,
    source_files: Seq<Seq<char>>,
    call: OutgoingCall,
) -> Option<NodeView> {
    match path_of_url(call.uri@) {
        Some(p) => if has_path(source_files, p) {
            let at = call.range.start.from_one();
            match innermost(nodes, FilterView::Is(p), at, at) {
                Some(i) => Some(nodes[i]),
                None => None,
            }
        } else {
            None
        },
        None => None,
    }
}

pub open spec fn callees_found(
    nodes: Seq<NodeView>,
    source_files: Seq<Seq<char>>,
    calls: Seq<OutgoingCall>,
) -> Seq<NodeView>
    decreases calls.len(),
{
    if calls.len() == 0 {
        Seq::empty()
    } else {
        pushed(
            callees_found(nodes, source_files, calls.drop_last()),
            callee(nodes, source_files, calls.last()),
        )
    }
}

/// The edges of the first functions; a function without a reply has none.
pub open spec fn edges_found(
    nodes: Seq<NodeView>,
    source_files: Seq<Seq<char>>,
    replies: Seq<Option<Vec<OutgoingCall>>>,
) -> Seq<(NodeView, Seq<NodeView>)>
    decreases replies.len(),
{
    if replies.len() == 0 {
        Seq::empty()
    } else {
        let rest = edges_found(nodes, source_files, replies.drop_last());
        match replies.last() {
            Some(calls) => rest.push(
                (nodes[replies.len() - 1], callees_found(nodes, source_files, calls@)),
            ),
            None => rest,
        }
    }
}

pub open spec fn call_ranges_fit(calls: Seq<OutgoingCall>) -> bool {
    forall|i: int| 0 <= i < calls.len() ==> (#[trigger] calls[i]).range.fits()
}

pub open spec fn reply_ranges_fit(replies: Seq<Option<Vec<OutgoingCall>>>) -> bool {
    forall|i: int|
        0 <= i < replies.len() ==> match #[trigger] replies[i] {
            Some(calls) => call_ranges_fit(calls@),
            None => true,
        }
}

pub open spec fn opt_node(o: Option<FunctionNode>) -> Option<NodeView> {
    match o {
        Some(n) => Some(n@),
        None => None,
    }
}

fn find_callee(
    nodes: &Vec<FunctionNode>,
    source_files: &Vec<String>,
    call: &OutgoingCall,
) -> (r: Option<FunctionNode>)
    requires
        call.range.fits(),
    ensures
        opt_node(r) == callee(views(nodes@), texts(source_files@), *call),
{
    match url_path(call.uri.as_str()) {
        Some(p) => {
            if !contains_path(source_files, p.as_str()) {
                return None;
            }
            let at = call.range.start.counted();
            let file = FileFilter::Is(p);
            match innermost_enclosing(nodes, at, &file) {
                Some(n) => Some(n.clone()),
                None => None,
            }
        },
        None => None,
    }
}

fn find_callees(
    nodes: &Vec<FunctionNode>,
    source_files: &Vec<String>,
    calls: &Vec<OutgoingCall>,
) -> (r: Vec<FunctionNode>)
    requires
        call_ranges_fit(calls@),
    ensures
        views(r@) == callees_found(views(nodes@), texts(source_files@), calls@),
{
    let ghost s = calls@;
    let mut out: Vec<FunctionNode> = Vec::new();
    let mut i: usize = 0;
    assert(s.subrange(0, 0).len() == 0);
    assert(views(out@) =~= Seq::<NodeView>::empty());
    while i < calls.len()
        invariant
            i <= calls@.len(),
            s == calls@,
            call_ranges_fit(calls@),
            views(out@) == callees_found(
                views(nodes@),
                texts(source_files@),
                s.subrange(0, i as int),
            ),
        decreases calls@.len() - i,
    {
        let ghost u = s.subrange(0, i + 1);
        let ghost before = views(out@);
        assert(u.drop_last() =~= s.subrange(0, i as int));
        assert(u.last() == calls@[i as int]);
        if let Some(n) = find_callee(nodes, source_files, &calls[i]) {
            out.push(n);
            assert(views(out@) =~= before.push(n@));
        }
        i = i + 1;
    }
    assert(s.subrange(0, s.len() as int) =~= s);
    out
}

/// The call graph of the declared functions. `replies` holds for each of them the calls that the
/// server reports, or nothing where it reports none.
pub fn build_call_graph(
    nodes: Vec<FunctionNode>,
    source_files: &Vec<String>,
    replies: &Vec<Option<Vec<OutgoingCall>>>,
) -> (r: CallGraph)
    requires
        replies@.len() == nodes@.len(),
        reply_ranges_fit(replies@),
    ensures
        r@ == (GraphView {
            nodes: views(nodes@),
            edges: edges_found(views(nodes@), texts(source_files@), replies@),
        }),
{
    let ghost s = replies@;
    let ghost n = views(nodes@);
    let ghost f = texts(source_files@);
    let mut edges: Vec<(FunctionNode, Vec<FunctionNode>)> = Vec::new();
    let mut i: usize = 0;
    assert(s.subrange(0, 0).len() == 0);
    assert(edge_views(edges@) =~= Seq::<(NodeView, Seq<NodeView>)>::empty());
    while i < replies.len()
        invariant
            i <= replies@.len(),
            replies@.len() == nodes@.len(),
            s == replies@,
            n == views(nodes@),
            f == texts(source_files@),
            reply_ranges_fit(replies@),
            edge_views(edges@) == edges_found(n, f, s.subrange(0, i as int)),
        decreases replies@.len() - i,
    {
        let ghost u = s.subrange(0, i + 1);
        let ghost before = edge_views(edges@);
        assert(u.drop_last() =~= s.subrange(0, i as int));
        assert(u.last() == replies@[i as int]);
        assert(n[i as int] == nodes@[i as int]@);
        if let Some(calls) = &replies[i] {
            let callees = find_callees(&nodes, source_files, calls);
            let ghost e = (n[i as int], views(callees@));
            edges.push((nodes[i].clone(), callees));
            assert(edge_views(edges@) =~= before.push(e));
        }
        i = i + 1;
    }
    assert(s.subrange(0, s.len() as int) =~= s);
    CallGraph::new(nodes, edges)
}

/// Whether the function is one of the nodes and stands in one of the source files.
pub open spec fn is_inside(n: NodeView, nodes: Seq<NodeView>, source_files: Seq<Seq<char>>) -> bool {
    nodes.contains(n) && has_path(source_files, n.location.file_path)
}

proof fn lemma_callees_inside(
    nodes: Seq<NodeView>,
    source_files: Seq<Seq<char>>,
    calls: Seq<OutgoingCall>,
)
    ensures
        forall|j: int|
            0 <= j < callees_found(nodes, source_files, calls).len() ==> is_inside(
                #[trigger] callees_found(nodes, source_files, calls)[j],
                nodes,
                source_files,
            ),
    decreases calls.len(),
{
    if calls.len() > 0 {
        lemma_callees_inside(nodes, source_files, calls.drop_last());
        let c = calls.last();
        if let Some(x) = callee(nodes, source_files, c) {
            let p = path_of_url(c.uri@)->0;
            let at = c.range.start.from_one();
            let i = innermost(nodes, FilterView::Is(p), at, at)->0;
            innermost_is_found(nodes, FilterView::Is(p), at, at);
            let k = choose|k: int|
                0 <= k < nodes.len() && encloses(#[trigger] nodes[k], FilterView::Is(p), at, at);
            innermost_is_smallest(nodes, FilterView::Is(p), at, at, i, k);
            assert(nodes.contains(x));
            let m = choose|m: int|
                0 <= m < source_files.len() && path_components(#[trigger] source_files[m])
                    == path_components(p);
            assert(path_components(source_files[m]) == path_components(x.location.file_path));
        }
        let rest = callees_found(nodes, source_files, calls.drop_last());
        let all = callees_found(nodes, source_files, calls);
        assert forall|j: int| 0 <= j < all.len() implies is_inside(
            #[trigger] all[j],
            nodes,
            source_files,
        ) by {
            if j < rest.len() {
                assert(all[j] == rest[j]);
            }
        }
    }
}

/// Every call in the graph leads to one of its functions, in one of the source files. Calls that
/// lead elsewhere are left out.
pub proof fn edges_stay_inside(
    nodes: Seq<NodeView>,
    source_files: Seq<Seq<char>>,
    replies: Seq<Option<Vec<OutgoingCall>>>,
    i: int,
    j: int,
)
    requires
        replies.len() == nodes.len(),
        0 <= i < edges_found(nodes, source_files, replies).len(),
        0 <= j < edges_found(nodes, source_files, replies)[i].1.len(),
    ensures
        is_inside(edges_found(nodes, source_files, replies)[i].1[j], nodes, source_files),
        nodes.contains(edges_found(nodes, source_files, replies)[i].0),
{
    lemma_edges_inside(nodes, source_files, replies, i, j);
}

proof fn lemma_edges_inside(
    nodes: Seq<NodeView>,
    source_files: Seq<Seq<char>>,
    replies: Seq<Option<Vec<OutgoingCall>>>,
    i: int,
    j: int,
)
    requires
        replies.len() <= nodes.len(),
        0 <= i < edges_found(nodes, source_files, replies).len(),
        0 <= j < edges_found(nodes, source_files, replies)[i].1.len(),
    ensures
        is_inside(edges_found(nodes, source_files, replies)[i].1[j], nodes, source_files),
        nodes.contains(edges_found(nodes, source_files, replies)[i].0),
    decreases replies.len(),
{
    if replies.len() > 0 {
        let rest = edges_found(nodes, source_files, replies.drop_last());
        if i < rest.len() {
            lemma_edges_inside(nodes, source_files, replies.drop_last(), i, j);
        } else if let Some(calls) = replies.last() {
            lemma_callees_inside(nodes, source_files, calls@);
            assert(nodes[replies.len() - 1] == edges_found(nodes, source_files, replies)[i].0);
        }
    }
}

} // verus!
