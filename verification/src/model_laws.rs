//! What holds of call graphs and of the models that are made from them.

use vstd::prelude::*;
use vstd::seq_lib::{lemma_seq_concat_contains_all_elements, lemma_seq_contains_after_push};

use crate::call_graph::{
    callees, calls, calls_reached, encloses, innermost, innermost_is_smallest, is_chain, is_reached,
    node_key, reaches, FilterView, GraphView, NodeKey, NodeView,
};
use crate::call_hierarchy::{
    callee, callees_found, edges_found, flat_functions, functions_in, lsp_location,
    nested_functions, DeclaredView, FlatSymbol, LspRange, NestedSymbol, OutgoingCall, SymbolKind,
    SymbolReply,
};
use crate::errors::ExtractorError;
use crate::generate_model::{
    all_inside, batch_next, before_job, entry_function, entry_functions, entry_nodes_of,
    entry_parts, entry_place, exported_functions, files_matching, first_outside, model_of, offers,
    outside_error, service_hint, symbol_functions, BatchAction,
};
use crate::go::receiver_split;
use crate::go_conventions::{
    directories_of, exported, first_true, function_key, go_symbol, has_parent, has_workspace,
    is_symbol, package_of, paths_at, paths_of_name, resolved_symbol, symbol_positions,
};
use crate::language::Language;
use crate::library_model::{
    models_for, operation_lt, CallType, ExternalLibraryModel, ModelView, OperationView,
};
use crate::lsp::path_of_url;
use crate::model_error::ModelErrorView;
use crate::model_generation::{
    all_operations, operation_list, operation_lists_are_in_order, operations_of, pattern_for,
    patterns_for,
};
use crate::paths::{has_path, path_components, path_has_prefix, path_has_suffix, path_parent_name};
use crate::sdk::{LocationView, SdkCallView};
use crate::text::{decimal, opt_text, parsed_unsigned, rfind_before, texts};
use crate::text_laws::{
    characters_are_found_first, characters_are_found_last, numbers_are_read_back,
};

verus! {

/// Two functions are the same if their names and places are, however the path of the file is
/// written.
pub proof fn functions_are_known_by_name_and_place(a: NodeView, b: NodeView)
    ensures
        node_key(a) == node_key(b) <==> a.name == b.name && a.qualified_name == b.qualified_name
            && path_components(a.location.file_path) == path_components(b.location.file_path)
            && a.location.start_position == b.location.start_position && a.location.end_position
            == b.location.end_position,
{
}

/// A file is named by its path, or by the end of it.
pub proof fn filters_accept_paths(path: Seq<char>, p: Seq<char>)
    ensures
        FilterView::Is(p).accepts(path) <==> path_components(path) == path_components(p),
        FilterView::EndsWith(p).accepts(path) <==> exists|cs: Seq<Seq<char>>|
            path_components(path) == #[trigger] (cs + path_components(p)),
{
    crate::path_laws::paths_end_and_start_with_components(path, p);
}

/// A function encloses a range of its file that starts at its start or behind it and ends at its end
/// or before it.
pub proof fn functions_enclose_what_is_between_their_ends(
    n: NodeView,
    file: FilterView,
    start: (usize, usize),
    end: (usize, usize),
)
    ensures
        encloses(n, file, start, end) <==> {
            let s = n.location.start_position;
            let e = n.location.end_position;
            &&& file.accepts(n.location.file_path)
            &&& s.0 < start.0 || (s.0 == start.0 && s.1 <= start.1)
            &&& end.0 < e.0 || (end.0 == e.0 && end.1 <= e.1)
        },
{
}

/// The innermost of the functions that enclose a range has the fewest lines; of several with as many,
/// it ends in the lowest column.
pub proof fn innermost_has_the_fewest_lines(
    nodes: Seq<NodeView>,
    file: FilterView,
    start: (usize, usize),
    end: (usize, usize),
    i: int,
    j: int,
)
    requires
        innermost(nodes, file, start, end) == Some(i),
        0 <= j < nodes.len(),
        encloses(nodes[j], file, start, end),
    ensures
        0 <= i < nodes.len(),
        encloses(nodes[i], file, start, end),
        ({
            let a = nodes[i].location;
            let b = nodes[j].location;
            let m = a.end_position.0 - a.start_position.0;
            let n = b.end_position.0 - b.start_position.0;
            m < n || (m == n && a.end_position.1 <= b.end_position.1)
        }),
{
    innermost_is_smallest(nodes, file, start, end, i, j);
}

/// What a function calls is what the last entry for it says.
pub proof fn last_entry_of_a_caller_counts(
    edges: Seq<(NodeView, Seq<NodeView>)>,
    caller: NodeKey,
    i: int,
)
    requires
        -1 <= i < edges.len(),
        forall|j: int| i < j < edges.len() ==> node_key((#[trigger] edges[j]).0) != caller,
        i >= 0 ==> node_key(edges[i].0) == caller,
    ensures
        i >= 0 ==> callees(edges, caller) == edges[i].1,
        i < 0 ==> callees(edges, caller).len() == 0,
    decreases edges.len(),
{
    if edges.len() > 0 && i < edges.len() - 1 {
        let t = edges.drop_last();
        assert(node_key(edges[edges.len() - 1].0) != caller);
        assert forall|j: int| i < j < t.len() implies node_key((#[trigger] t[j]).0) != caller by {
            assert(t[j] == edges[j]);
        }
        last_entry_of_a_caller_counts(t, caller, i);
    }
}

/// A function calls another if the other is among its callees, at whatever place.
pub proof fn every_callee_is_called(
    edges: Seq<(NodeView, Seq<NodeView>)>,
    caller: NodeKey,
    callee: NodeKey,
)
    ensures
        calls(edges, caller, callee) <==> exists|i: int|
            0 <= i < callees(edges, caller).len() && node_key(#[trigger] callees(edges, caller)[i])
                == callee,
{
}

/// A function reaches itself, and what the functions that it calls reach, and nothing else.
pub proof fn functions_reach_what_they_call(
    edges: Seq<(NodeView, Seq<NodeView>)>,
    from: NodeKey,
    to: NodeKey,
)
    ensures
        reaches(edges, from, to) <==> (from == to || exists|mid: NodeKey| #[trigger]
            calls(edges, from, mid) && reaches(edges, mid, to)),
{
    if reaches(edges, from, to) && from != to {
        let chain = choose|chain: Seq<NodeKey>| #[trigger]
            is_chain(edges, chain) && chain.len() > 0 && chain[0] == from && chain.last() == to;
        let rest = chain.subrange(1, chain.len() as int);
        let mid = chain[1];
        assert(calls(edges, chain[0], chain[1]));
        assert forall|i: int| 0 <= i < rest.len() - 1 implies calls(
            edges,
            #[trigger] rest[i],
            rest[i + 1],
        ) by {
            assert(rest[i] == chain[i + 1]);
            assert(calls(edges, chain[i + 1], chain[i + 1 + 1]));
        }
        assert(is_chain(edges, rest));
        assert(rest[0] == mid && rest.last() == to);
        assert(reaches(edges, mid, to));
    }
    if from == to {
        crate::call_graph::functions_reach_themselves(edges, from);
    }
    assert forall|mid: NodeKey| #[trigger] calls(edges, from, mid) && reaches(
        edges,
        mid,
        to,
    ) implies reaches(edges, from, to) by {
        let one = seq![from, mid];
        assert forall|i: int| 0 <= i < one.len() - 1 implies calls(
            edges,
            #[trigger] one[i],
            one[i + 1],
        ) by {}
        assert(is_chain(edges, one));
        assert(one[0] == from && one.last() == mid);
        assert(reaches(edges, from, mid));
        crate::call_graph::reaching_is_transitive(edges, from, mid, to);
    }
}

/// A call is reached from an entry point exactly if the innermost function around it is.
pub proof fn calls_are_reached_through_the_function_around_them(
    g: GraphView,
    entry: NodeView,
    call: SdkCallView,
)
    ensures
        is_reached(g, entry, call) <==> (call.metadata is Some && ({
            let l = call.metadata->0.location;
            innermost(
                g.nodes,
                FilterView::Is(l.file_path),
                l.start_position,
                l.end_position,
            ) matches Some(i) && reaches(g.edges, node_key(entry), node_key(g.nodes[i]))
        })),
{
}

/// The calls that are reached keep their order, and none is left out.
pub proof fn reached_calls_are_kept(g: GraphView, entry: NodeView, calls: Seq<SdkCallView>)
    ensures
        calls_reached(g, entry, calls) == calls.filter(|c: SdkCallView| is_reached(g, entry, c)),
    decreases calls.len(),
{
    reveal(Seq::filter);
    if calls.len() > 0 {
        reached_calls_are_kept(g, entry, calls.drop_last());
    }
}

/// Places from a language server are counted from one.
pub proof fn server_places_are_counted_from_one(uri: Seq<char>, range: LspRange)
    requires
        range.fits(),
    ensures
        lsp_location(uri, range) is Some <==> path_of_url(uri) is Some,
        lsp_location(uri, range) matches Some(l) ==> l.file_path == path_of_url(uri)->0
            && l.start_position.0 == range.start.line + 1 && l.start_position.1
            == range.start.character + 1 && l.end_position.0 == range.end.line + 1
            && l.end_position.1 == range.end.character + 1,
{
}

/// The functions and methods among the symbols of a file are its functions, one by one.
pub proof fn functions_and_methods_are_declared(
    uri: Seq<char>,
    v: Seq<NestedSymbol>,
    s: NestedSymbol,
    w: Seq<FlatSymbol>,
    f: FlatSymbol,
    location: LocationView,
)
    ensures
        (s.kind == SymbolKind::Function || s.kind == SymbolKind::Method) && lsp_location(
            uri,
            s.range,
        ) == Some(location) ==> nested_functions(uri, v.push(s)) == nested_functions(uri, v).push(
            DeclaredView {
                node: NodeView { name: s.name@, qualified_name: opt_text(s.detail), location },
                uri,
                name_position: s.selection_range.start,
            },
        ),
        s.kind == SymbolKind::Other ==> nested_functions(uri, v.push(s)) == nested_functions(uri, v),
        (f.kind == SymbolKind::Function || f.kind == SymbolKind::Method) && lsp_location(
            uri,
            f.range,
        ) == Some(location) ==> flat_functions(uri, w.push(f)) == flat_functions(uri, w).push(
            DeclaredView {
                node: NodeView {
                    name: f.name@,
                    qualified_name: opt_text(f.container_name),
                    location,
                },
                uri,
                name_position: f.range.start,
            },
        ),
        f.kind == SymbolKind::Other ==> flat_functions(uri, w.push(f)) == flat_functions(uri, w),
{
    assert(v.push(s).drop_last() =~= v);
    assert(w.push(f).drop_last() =~= w);
}

/// Of a reply all symbols count.
pub proof fn replies_declare_their_symbols(uri: Seq<char>, reply: SymbolReply)
    ensures
        reply matches SymbolReply::Nested(v) ==> functions_in(uri, reply) == nested_functions(
            uri,
            v@,
        ),
        reply matches SymbolReply::Flat(v) ==> functions_in(uri, reply) == flat_functions(uri, v@),
{
}

/// What a call goes to is the innermost function around its place, if the file is one of the sources.
pub proof fn calls_go_to_the_function_at_their_place(
    nodes: Seq<NodeView>,
    source_files: Seq<Seq<char>>,
    call: OutgoingCall,
    p: Seq<char>,
)
    requires
        path_of_url(call.uri@) == Some(p),
        call.range.fits(),
    ensures
        !has_path(source_files, p) ==> callee(nodes, source_files, call) is None,
        has_path(source_files, p) ==> ({
            let at = (
                (call.range.start.line + 1) as usize,
                (call.range.start.character + 1) as usize,
            );
            match innermost(nodes, FilterView::Is(p), at, at) {
                Some(i) => callee(nodes, source_files, call) == Some(nodes[i]),
                None => callee(nodes, source_files, call) is None,
            }
        }),
{
}

/// Calls and replies are followed one by one.
pub proof fn replies_are_followed_one_by_one(
    nodes: Seq<NodeView>,
    source_files: Seq<Seq<char>>,
    calls: Seq<OutgoingCall>,
    call: OutgoingCall,
    replies: Seq<Option<Vec<OutgoingCall>>>,
    reply: Option<Vec<OutgoingCall>>,
)
    ensures
        callees_found(nodes, source_files, calls.push(call)) == (match callee(
            nodes,
            source_files,
            call,
        ) {
            Some(n) => callees_found(nodes, source_files, calls).push(n),
            None => callees_found(nodes, source_files, calls),
        }),
        edges_found(nodes, source_files, replies.push(reply)) == (match reply {
            Some(v) => edges_found(nodes, source_files, replies).push(
                (nodes[replies.len() as int], callees_found(nodes, source_files, v@)),
            ),
            None => edges_found(nodes, source_files, replies),
        }),
        callees_found(nodes, source_files, Seq::empty()).len() == 0,
        edges_found(nodes, source_files, Seq::empty()).len() == 0,
{
    assert(calls.push(call).drop_last() =~= calls);
    assert(replies.push(reply).drop_last() =~= replies);
}

/// An entry point is written as file, line and column with colons between them. Colons in the name of
/// the file do not matter.
pub proof fn entry_points_name_a_place(file: Seq<char>, line: nat, column: nat)
    requires
        line <= usize::MAX,
        column <= usize::MAX,
    ensures
        entry_place(file + seq![':'] + decimal(line) + seq![':'] + decimal(column)) == Ok::<
            (Seq<char>, (usize, usize)),
            ModelErrorView,
        >((file, (line as usize, column as usize))),
{
    let l = decimal(line);
    let c = decimal(column);
    let s = file + seq![':'] + l + seq![':'] + c;
    numbers_are_read_back(line, usize::MAX as int);
    numbers_are_read_back(column, usize::MAX as int);
    lemma_no_colon(l);
    lemma_no_colon(c);
    lemma_entry_parts(file, l, c);
}

proof fn lemma_no_colon(d: Seq<char>)
    requires
        crate::text::all_digits(d),
    ensures
        !d.contains(':'),
{
    if d.contains(':') {
        let k = choose|k: int| 0 <= k < d.len() && d[k] == ':';
        assert(crate::text::is_digit(d[k]));
    }
}

proof fn lemma_entry_parts(file: Seq<char>, l: Seq<char>, c: Seq<char>)
    requires
        !l.contains(':'),
        !c.contains(':'),
    ensures
        entry_parts(file + seq![':'] + l + seq![':'] + c) == Some((file, l, c)),
{
    let head = file + seq![':'] + l;
    let s = head + seq![':'] + c;
    characters_are_found_last(head, ':', c);
    let last = head.len() as int;
    characters_are_found_last(file, ':', l);
    lemma_rfind_prefix(head, s, ':', last);
    assert(rfind_before(s, ':', last) == file.len());
    assert(s.subrange(0, file.len() as int) =~= file);
    assert(s.subrange(file.len() as int + 1, last) =~= l);
    assert(s.subrange(last + 1, s.len() as int) =~= c);
}

proof fn lemma_rfind_prefix(a: Seq<char>, s: Seq<char>, c: char, to: int)
    requires
        0 <= to <= a.len(),
        a.len() <= s.len(),
        forall|i: int| 0 <= i < a.len() ==> a[i] == s[i],
    ensures
        rfind_before(s, c, to) == rfind_before(a, c, to),
    decreases to,
{
    if to > 0 {
        lemma_rfind_prefix(a, s, c, to - 1);
    }
}

/// An entry point without two colons is not valid, nor is one whose column or line is no number.
pub proof fn other_entry_points_are_not_valid(file: Seq<char>, l: Seq<char>, c: Seq<char>)
    requires
        !l.contains(':'),
        !c.contains(':'),
    ensures
        entry_place(l) == Err::<(Seq<char>, (usize, usize)), ModelErrorView>(
            ModelErrorView::InvalidEntryPoint { entry: l },
        ),
        entry_place(l + seq![':'] + c) == Err::<(Seq<char>, (usize, usize)), ModelErrorView>(
            ModelErrorView::InvalidEntryPoint { entry: l + seq![':'] + c },
        ),
        parsed_unsigned(c, usize::MAX as int) is None ==> entry_place(
            file + seq![':'] + l + seq![':'] + c,
        ) == Err::<(Seq<char>, (usize, usize)), ModelErrorView>(
            ModelErrorView::InvalidColumn { entry: file + seq![':'] + l + seq![':'] + c },
        ),
        parsed_unsigned(c, usize::MAX as int) is Some && parsed_unsigned(
            l,
            usize::MAX as int,
        ) is None ==> entry_place(file + seq![':'] + l + seq![':'] + c) == Err::<
            (Seq<char>, (usize, usize)),
            ModelErrorView,
        >(ModelErrorView::InvalidLine { entry: file + seq![':'] + l + seq![':'] + c }),
{
    let none = Seq::<char>::empty();
    characters_are_found_last(none, ':', l);
    lemma_entry_parts(file, l, c);
    let s = l + seq![':'] + c;
    characters_are_found_last(l, ':', c);
    lemma_rfind_prefix(l, s, ':', l.len() as int);
}

/// The files that an entry point can mean are those of the functions whose path ends with the given
/// one, each once.
pub proof fn files_of_entry_points(nodes: Seq<NodeView>, file: Seq<char>, p: Seq<char>)
    ensures
        has_path(files_matching(nodes, file), p) <==> exists|i: int|
            0 <= i < nodes.len() && path_has_suffix((#[trigger] nodes[i]).location.file_path, file)
                && path_components(nodes[i].location.file_path) == path_components(p),
        forall|i: int, j: int|
            0 <= i < j < files_matching(nodes, file).len() ==> path_components(
                #[trigger] files_matching(nodes, file)[i],
            ) != path_components(#[trigger] files_matching(nodes, file)[j]),
    decreases nodes.len(),
{
    if nodes.len() > 0 {
        let t = nodes.drop_last();
        let last = nodes[nodes.len() - 1];
        let path = last.location.file_path;
        let rest = files_matching(t, file);
        let all = files_matching(nodes, file);
        files_of_entry_points(t, file, p);
        assert(nodes.last() == last);
        assert forall|i: int| 0 <= i < t.len() implies t[i] == nodes[i] by {}
        if has_path(rest, p) {
            let i = choose|i: int|
                0 <= i < t.len() && path_has_suffix((#[trigger] t[i]).location.file_path, file)
                    && path_components(t[i].location.file_path) == path_components(p);
            assert(path_components(nodes[i].location.file_path) == path_components(p));
            let k = choose|k: int|
                0 <= k < rest.len() && path_components(#[trigger] rest[k]) == path_components(p);
            assert(all[k] == rest[k]);
        }
        if path_has_suffix(path, file) {
            if has_path(rest, path) {
                let k = choose|k: int|
                    0 <= k < rest.len() && path_components(#[trigger] rest[k]) == path_components(
                        path,
                    );
                if path_components(path) == path_components(p) {
                    assert(path_components(all[k]) == path_components(p));
                }
            } else {
                assert(all[rest.len() as int] == path);
                if has_path(all, p) && !has_path(rest, p) {
                    let k = choose|k: int|
                        0 <= k < all.len() && path_components(#[trigger] all[k])
                            == path_components(p);
                    if k < rest.len() {
                        assert(rest[k] == all[k]);
                    }
                }
                assert forall|i: int, j: int| 0 <= i < j < all.len() implies path_components(
                    #[trigger] all[i],
                ) != path_components(#[trigger] all[j]) by {
                    assert(all[i] == rest[i]);
                    if j < rest.len() {
                        assert(all[j] == rest[j]);
                    }
                }
            }
        }
    }
}

/// An entry point is the innermost function at its place, in the one file that it can mean.
pub proof fn entry_points_are_innermost_functions(
    entry: Seq<char>,
    nodes: Seq<NodeView>,
    file: Seq<char>,
    at: (usize, usize),
)
    requires
        entry_place(entry) == Ok::<(Seq<char>, (usize, usize)), ModelErrorView>((file, at)),
    ensures
        files_matching(nodes, file).len() > 1 ==> (entry_function(entry, nodes) matches Err(
            ModelErrorView::AmbiguousFile { file: f, entry: e, found },
        ) && f == file && e == entry && found == files_matching(nodes, file)),
        files_matching(nodes, file).len() <= 1 ==> match innermost(
            nodes,
            FilterView::EndsWith(file),
            at,
            at,
        ) {
            Some(i) => entry_function(entry, nodes) == Ok::<int, ModelErrorView>(i),
            None => entry_function(entry, nodes) matches Err(
                ModelErrorView::NoFunctionAt { entry: e, file: f, available },
            ) && e == entry && f == file && available == offers(nodes, file),
        },
{
}

/// A refusal offers every function of the file, with its place.
pub proof fn functions_of_the_file_are_offered(
    nodes: Seq<NodeView>,
    n: NodeView,
    file: Seq<char>,
)
    ensures
        path_has_suffix(n.location.file_path, file) ==> offers(nodes.push(n), file) == offers(
            nodes,
            file,
        ).push(
            n.name + " ("@ + decimal(n.location.start_position.0 as nat) + ":"@ + decimal(
                n.location.start_position.1 as nat,
            ) + ")"@,
        ),
        !path_has_suffix(n.location.file_path, file) ==> offers(nodes.push(n), file) == offers(
            nodes,
            file,
        ),
        offers(Seq::empty(), file).len() == 0,
{
    assert(nodes.push(n).drop_last() =~= nodes);
}

/// Entry points and symbols are resolved one by one; the first that cannot be resolved decides.
pub proof fn entry_points_are_resolved_one_by_one(
    entries: Seq<Seq<char>>,
    entry: Seq<char>,
    first: Seq<NodeView>,
    symbols: Seq<Seq<char>>,
    symbol: Seq<char>,
    nodes: Seq<NodeView>,
)
    ensures
        entry_functions(entries.push(entry), nodes) == (match entry_functions(entries, nodes) {
            Err(e) => Err::<Seq<NodeView>, ModelErrorView>(e),
            Ok(v) => match entry_function(entry, nodes) {
                Ok(i) => Ok::<Seq<NodeView>, ModelErrorView>(v.push(nodes[i])),
                Err(e) => Err::<Seq<NodeView>, ModelErrorView>(e),
            },
        }),
        symbol_functions(first, symbols.push(symbol), nodes) == (match symbol_functions(
            first,
            symbols,
            nodes,
        ) {
            Err(e) => Err::<Seq<NodeView>, ModelErrorView>(e),
            Ok(v) => match resolved_symbol(symbol, nodes) {
                Ok(i) => Ok::<Seq<NodeView>, ModelErrorView>(v.push(nodes[i])),
                Err(e) => Err::<Seq<NodeView>, ModelErrorView>(
                    ModelErrorView::UnresolvedSymbol { symbol, cause: e.text() },
                ),
            },
        }),
        entry_functions(Seq::empty(), nodes) == Ok::<Seq<NodeView>, ModelErrorView>(Seq::empty()),
        symbol_functions(first, Seq::empty(), nodes) == Ok::<Seq<NodeView>, ModelErrorView>(first),
{
    assert(entries.push(entry).drop_last() =~= entries);
    assert(symbols.push(symbol).drop_last() =~= symbols);
}

/// Where no entry point is given, every exported function is one; where there are any, they and the
/// symbols are, and no others.
pub proof fn exported_functions_are_the_default(
    entries: Seq<Seq<char>>,
    symbols: Seq<Seq<char>>,
    nodes: Seq<NodeView>,
)
    ensures
        entry_nodes_of(Seq::empty(), Seq::empty(), nodes) == Ok::<Seq<NodeView>, ModelErrorView>(
            nodes.filter(|n: NodeView| exported(n.name)),
        ),
        entries.len() + symbols.len() > 0 ==> entry_nodes_of(entries, symbols, nodes) == (
        match entry_functions(entries, nodes) {
            Err(e) => Err::<Seq<NodeView>, ModelErrorView>(e),
            Ok(first) => symbol_functions(first, symbols, nodes),
        }),
{
    lemma_exported(nodes);
}

proof fn lemma_exported(nodes: Seq<NodeView>)
    ensures
        exported_functions(nodes) == nodes.filter(|n: NodeView| exported(n.name)),
    decreases nodes.len(),
{
    reveal(Seq::filter);
    if nodes.len() > 0 {
        lemma_exported(nodes.drop_last());
    }
}

/// A function or method is exported if its own name starts with a capital.
pub proof fn capitals_are_exported(class: Seq<char>, name: Seq<char>)
    requires
        class.len() > 0,
        class[0] != '(',
        class[0] != '*',
        !class.contains(')'),
        name.len() > 0,
    ensures
        exported("(*"@ + class + ")."@ + name) == crate::casing::is_upper_case(name[0]),
        !name.contains(')') ==> exported(name) == crate::casing::is_upper_case(name[0]),
{
    crate::go_laws::methods_are_split(class, name);
    if !name.contains(')') {
        assert forall|i: int| 0 <= i < name.len() - 1 implies !(#[trigger] name[i] == ')' && name[i
            + 1] == '.') by {
            assert(name.contains(name[i]));
        }
        crate::go_laws::functions_have_no_class(name);
    }
}

/// A function belongs to the package that the directory of its file names.
pub proof fn directories_name_packages(
    n: NodeView,
    a: Seq<char>,
    package: Seq<char>,
    file: Seq<char>,
)
    requires
        a.len() > 0,
        file.len() > 0,
        file != "."@,
        file != ".."@,
        !file.contains('/'),
        package.len() > 0,
        package != "."@,
        package != ".."@,
        !package.contains('/'),
        n.location.file_path == a + seq!['/'] + package + seq!['/'] + file,
    ensures
        package_of(n.location.file_path) == package,
        function_key(n).module == package,
        function_key(n).class_name == receiver_split(n.name).0,
        function_key(n).function_name == receiver_split(n.name).1,
        forall|f: Seq<char>| is_symbol(n, package, f) == (n.name == f),
        forall|p: Seq<char>| p != package ==> !is_symbol(n, p, n.name),
{
    crate::path_laws::paths_have_names(a, package, file);
}

/// A symbol names its package and its function in its last segment.
pub proof fn symbols_name_package_and_function(
    path: Seq<char>,
    package: Seq<char>,
    function: Seq<char>,
)
    requires
        !package.contains('/'),
        !package.contains('.'),
        !function.contains('/'),
    ensures
        package.len() > 0 && function.len() > 0 ==> go_symbol(
            path + seq!['/'] + package + seq!['.'] + function,
        ) == Ok::<(Seq<char>, Seq<char>), ModelErrorView>((package, function)),
        package.len() > 0 && function.len() > 0 ==> go_symbol(package + seq!['.'] + function)
            == Ok::<(Seq<char>, Seq<char>), ModelErrorView>((package, function)),
        go_symbol(path + seq!['/'] + package) == Err::<(Seq<char>, Seq<char>), ModelErrorView>(
            ModelErrorView::InvalidSymbol { symbol: path + seq!['/'] + package },
        ),
        package.len() == 0 ==> go_symbol(path + seq!['/'] + package + seq!['.'] + function) == Err::<
            (Seq<char>, Seq<char>),
            ModelErrorView,
        >(ModelErrorView::EmptyPackage { symbol: path + seq!['/'] + package + seq!['.'] + function }),
        package.len() > 0 && function.len() == 0 ==> go_symbol(
            path + seq!['/'] + package + seq!['.'] + function,
        ) == Err::<(Seq<char>, Seq<char>), ModelErrorView>(
            ModelErrorView::EmptyFunction {
                symbol: path + seq!['/'] + package + seq!['.'] + function,
            },
        ),
{
    let segment = package + seq!['.'] + function;
    let none = Seq::<char>::empty();
    if segment.contains('/') {
        let k = choose|k: int| 0 <= k < segment.len() && segment[k] == '/';
        if k < package.len() {
            assert(package[k] == '/');
        } else {
            assert(function[k - package.len() - 1] == '/');
        }
    }
    let s = path + seq!['/'] + segment;
    assert(path + seq!['/'] + package + seq!['.'] + function =~= s);
    characters_are_found_last(path, '/', segment);
    assert(s.subrange(path.len() as int + 1, s.len() as int) =~= segment);
    assert(segment.subrange(0, segment.len() as int) =~= segment);
    characters_are_found_first(package, '.', function);
    assert(segment.subrange(0, package.len() as int) =~= package);
    assert(segment.subrange(package.len() as int + 1, segment.len() as int) =~= function);
    let t = path + seq!['/'] + package;
    characters_are_found_last(path, '/', package);
    assert(t.subrange(path.len() as int + 1, t.len() as int) =~= package);
    characters_are_found_first(package, '.', none);
}

/// The functions that a symbol can mean are all those of its name in its package.
pub proof fn symbols_mean_functions(
    nodes: Seq<NodeView>,
    package: Seq<char>,
    function: Seq<char>,
    i: int,
)
    ensures
        symbol_positions(nodes, package, function).contains(i) <==> 0 <= i < nodes.len()
            && nodes[i].name == function && path_parent_name(nodes[i].location.file_path) == Some(
            package,
        ),
        symbol_positions(nodes, package, function).no_duplicates(),
    decreases nodes.len(),
{
    broadcast use lemma_seq_contains_after_push;

    if nodes.len() > 0 {
        let t = nodes.drop_last();
        symbols_mean_functions(t, package, function, i);
        symbols_mean_functions(t, package, function, nodes.len() - 1);
        assert(nodes[nodes.len() - 1] == nodes.last());
        if 0 <= i < t.len() {
            assert(t[i] == nodes[i]);
        }
    }
}

/// A symbol is resolved exactly if it means one function. Otherwise the error tells whether there are
/// several, none of the name, or only ones in other packages.
pub proof fn symbols_are_resolved_if_unique(
    symbol: Seq<char>,
    nodes: Seq<NodeView>,
    package: Seq<char>,
    function: Seq<char>,
)
    requires
        go_symbol(symbol) == Ok::<(Seq<char>, Seq<char>), ModelErrorView>((package, function)),
    ensures
        resolved_symbol(symbol, nodes) is Ok <==> symbol_positions(
            nodes,
            package,
            function,
        ).len() == 1,
        resolved_symbol(symbol, nodes) matches Ok(i) ==> symbol_positions(
            nodes,
            package,
            function,
        ) == seq![i],
        symbol_positions(nodes, package, function).len() > 1 ==> resolved_symbol(symbol, nodes)
            == Err::<int, ModelErrorView>(
            ModelErrorView::AmbiguousSymbol {
                symbol,
                function,
                package,
                found: paths_at(nodes, symbol_positions(nodes, package, function)),
            },
        ),
        symbol_positions(nodes, package, function).len() == 0 && (exists|i: int|
            0 <= i < nodes.len() && (#[trigger] nodes[i]).name == function) ==> resolved_symbol(
            symbol,
            nodes,
        ) == Err::<int, ModelErrorView>(
            ModelErrorView::WrongPackage {
                function,
                package,
                symbol,
                found: paths_of_name(nodes, function),
            },
        ),
        (forall|i: int| 0 <= i < nodes.len() ==> (#[trigger] nodes[i]).name != function)
            ==> resolved_symbol(symbol, nodes) == Err::<int, ModelErrorView>(
            ModelErrorView::UnknownFunction { function, symbol },
        ),
{
    let found = symbol_positions(nodes, package, function);
    if found.len() == 1 {
        assert(found =~= seq![found[0]]);
    }
    lemma_functions_of_name(nodes, function);
    if forall|i: int| 0 <= i < nodes.len() ==> (#[trigger] nodes[i]).name != function {
        if found.len() > 0 {
            symbols_mean_functions(nodes, package, function, found[0]);
            assert(found.contains(found[0]));
            assert(nodes[found[0]].name == function);
        }
    }
}

proof fn lemma_functions_of_name(nodes: Seq<NodeView>, function: Seq<char>)
    ensures
        paths_of_name(nodes, function).len() > 0 <==> exists|i: int|
            0 <= i < nodes.len() && (#[trigger] nodes[i]).name == function,
    decreases nodes.len(),
{
    if nodes.len() > 0 {
        let t = nodes.drop_last();
        lemma_functions_of_name(t, function);
        assert(nodes[nodes.len() - 1] == nodes.last());
        assert forall|i: int| 0 <= i < t.len() implies t[i] == nodes[i] by {}
        if paths_of_name(t, function).len() > 0 {
            let i = choose|i: int| 0 <= i < t.len() && (#[trigger] t[i]).name == function;
            assert(nodes[i].name == function);
        }
    }
}

/// A model is generated exactly if there is a first file in some directory and all entry points are
/// resolved. It is that of the library, for its language, with the patterns of its entry points.
pub proof fn models_are_those_of_their_entry_points(
    g: GraphView,
    files: Seq<Seq<char>>,
    entries: Seq<Seq<char>>,
    symbols: Seq<Seq<char>>,
    calls: Seq<SdkCallView>,
    library_name: Seq<char>,
    language: Language,
)
    ensures
        model_of(g, files, entries, symbols, calls, library_name, language) is Ok
            <==> has_workspace(files) && entry_nodes_of(entries, symbols, g.nodes) is Ok,
        !has_workspace(files) ==> model_of(
            g,
            files,
            entries,
            symbols,
            calls,
            library_name,
            language,
        ) == Err::<ModelView, ModelErrorView>(ModelErrorView::NoSourceFiles),
        model_of(g, files, entries, symbols, calls, library_name, language) matches Ok(m)
            ==> m.library_name == library_name && m.language == language && m.version is None
            && m.call_patterns == patterns_for(
            g,
            entry_nodes_of(entries, symbols, g.nodes)->Ok_0,
            calls,
        ),
        has_workspace(files) <==> files.len() > 0 && path_components(files[0]).len() > 0
            && path_components(files[0]).last() != "/"@,
{
}

/// The operations of calls are all their names with all their possible services.
pub proof fn calls_mean_operations(calls: Seq<SdkCallView>, op: OperationView)
    ensures
        all_operations(calls).contains(op) <==> exists|i: int|
            0 <= i < calls.len() && (#[trigger] calls[i]).name == op.operation
                && calls[i].possible_services.contains(op.service),
    decreases calls.len(),
{
    broadcast use lemma_seq_concat_contains_all_elements;

    if calls.len() > 0 {
        let t = calls.drop_last();
        let last = calls[calls.len() - 1];
        calls_mean_operations(t, op);
        assert(calls.last() == last);
        assert forall|i: int| 0 <= i < t.len() implies t[i] == calls[i] by {}
        if all_operations(t).contains(op) {
            let i = choose|i: int|
                0 <= i < t.len() && (#[trigger] t[i]).name == op.operation
                    && t[i].possible_services.contains(op.service);
            assert(calls[i].possible_services.contains(op.service));
        }
        let ops = operations_of(last);
        if ops.contains(op) {
            let k = choose|k: int| 0 <= k < ops.len() && ops[k] == op;
            assert(last.possible_services[k] == op.service);
        }
        if last.name == op.operation && last.possible_services.contains(op.service) {
            let k = choose|k: int|
                0 <= k < last.possible_services.len() && last.possible_services[k] == op.service;
            assert(ops[k] == op);
        }
    }
}

/// The list of operations of calls has each of their operations once.
pub proof fn operation_lists_are_complete(calls: Seq<SdkCallView>, op: OperationView)
    ensures
        operation_list(calls).contains(op) <==> exists|i: int|
            0 <= i < calls.len() && (#[trigger] calls[i]).name == op.operation
                && calls[i].possible_services.contains(op.service),
        operation_list(calls).no_duplicates(),
{
    operation_lists_are_in_order(calls);
    calls_mean_operations(calls, op);
    let l = operation_list(calls);
    let a = all_operations(calls);
    assert(l.to_set().contains(op) == l.contains(op));
    assert(a.to_set().contains(op) == a.contains(op));
    crate::library_model::operations_are_ordered();
    let lt = crate::order::order_of::<crate::library_model::SdkOperationMapping>();
    assert forall|i: int, j: int| 0 <= i < l.len() && 0 <= j < l.len() && i != j implies l[i]
        != l[j] by {
        if i < j {
            assert(lt(l[i], l[j]));
        } else {
            assert(lt(l[j], l[i]));
        }
        assert(!lt(l[i], l[i]));
    }
}

/// The pattern of an entry point has its package, class and name, and the operations of the calls that
/// it reaches.
pub proof fn patterns_have_the_operations_reached(node: NodeView, calls: Seq<SdkCallView>)
    ensures
        pattern_for(node, calls).module == function_key(node).module,
        pattern_for(node, calls).class_name == function_key(node).class_name,
        pattern_for(node, calls).function_name == function_key(node).function_name,
        pattern_for(node, calls).call_type == (if function_key(node).class_name is Some {
            CallType::InstanceMethod
        } else {
            CallType::Function
        }),
        pattern_for(node, calls).sdk_operations == operation_list(calls),
{
}

/// Entry points are looked at one by one; one that reaches no call has no pattern.
pub proof fn entry_points_have_patterns_one_by_one(
    g: GraphView,
    entries: Seq<NodeView>,
    entry: NodeView,
    calls: Seq<SdkCallView>,
)
    ensures
        calls_reached(g, entry, calls).len() == 0 ==> patterns_for(g, entries.push(entry), calls)
            == patterns_for(g, entries, calls),
        calls_reached(g, entry, calls).len() > 0 ==> patterns_for(g, entries.push(entry), calls)
            == patterns_for(g, entries, calls).push(
            pattern_for(entry, calls_reached(g, entry, calls)),
        ),
        patterns_for(g, Seq::empty(), calls).len() == 0,
{
    assert(entries.push(entry).drop_last() =~= entries);
}

/// Operations are ordered by service, then by name.
pub proof fn operations_are_ordered_by_service(a: OperationView, b: OperationView)
    ensures
        a.service == b.service ==> operation_lt(a, b) == crate::text::text_lt(
            a.operation,
            b.operation,
        ),
        a.service != b.service ==> operation_lt(a, b) == crate::text::text_lt(a.service, b.service),
{
    crate::text::lemma_text_lt_irreflexive(a.service);
}

/// The first file outside a directory is found; there is none exactly if all files are inside.
pub proof fn files_outside_are_found(files: Seq<Seq<char>>, root: Seq<char>)
    ensures
        0 <= first_outside(files, root) <= files.len(),
        first_outside(files, root) < files.len() ==> !path_has_prefix(
            files[first_outside(files, root)],
            root,
        ),
        forall|i: int| 0 <= i < first_outside(files, root) ==> path_has_prefix(#[trigger] files[i], root),
    decreases files.len(),
{
    if files.len() > 0 && path_has_prefix(files[0], root) {
        let t = files.subrange(1, files.len() as int);
        files_outside_are_found(t, root);
        assert forall|i: int| 0 <= i < first_outside(files, root) implies path_has_prefix(
            #[trigger] files[i],
            root,
        ) by {
            if i > 0 {
                assert(t[i - 1] == files[i]);
            }
        }
    }
}

/// Each job is probed and then run, in turn; before it the server is restarted if the number of jobs
/// that ran is a multiple of the given one. A step that fails ends the batch.
pub proof fn jobs_take_their_steps(i: usize, jobs: usize, n: usize, last: BatchAction)
    requires
        i < jobs,
    ensures
        batch_next(last, false, jobs, n) == BatchAction::Shutdown(false),
        batch_next(BatchAction::Restart(i), true, jobs, n) == BatchAction::Probe(i),
        batch_next(BatchAction::Probe(i), true, jobs, n) == BatchAction::Run(i),
        i + 1 == jobs ==> batch_next(BatchAction::Run(i), true, jobs, n) == BatchAction::Shutdown(
            true,
        ),
        i + 1 < jobs && n > 0 && (i + 1) % (n as int) == 0 ==> batch_next(
            BatchAction::Run(i),
            true,
            jobs,
            n,
        ) == BatchAction::Restart((i + 1) as usize),
        i + 1 < jobs && (n == 0 || (i + 1) % (n as int) != 0) ==> batch_next(
            BatchAction::Run(i),
            true,
            jobs,
            n,
        ) == BatchAction::Probe((i + 1) as usize),
        before_job(0, jobs, n) == BatchAction::Probe(0),
        before_job(0, 0, n) == BatchAction::Shutdown(true),
{
}

/// The service that a package stands for is the one of its import, if that is known, or else its own
/// name, if that is.
pub proof fn packages_hint_at_services(
    package: Seq<char>,
    imports: Map<Seq<char>, Seq<char>>,
    known: Set<Seq<char>>,
)
    ensures
        imports.contains_key(package) && known.contains(imports[package]) ==> service_hint(
            package,
            imports,
            known,
        ) == Some(imports[package]),
        !(imports.contains_key(package) && known.contains(imports[package])) && known.contains(
            package,
        ) ==> service_hint(package, imports, known) == Some(package),
        !(imports.contains_key(package) && known.contains(imports[package])) && !known.contains(
            package,
        ) ==> service_hint(package, imports, known) is None,
{
}

/// The directories around a file are its own and those above it, up to the root.
pub proof fn directories_go_up_to_the_root(cs: Seq<Seq<char>>, k: int)
    requires
        0 <= k < directories_of(cs).len(),
    ensures
        k <= cs.len(),
        directories_of(cs)[k] == cs.subrange(0, cs.len() - k),
        k == directories_of(cs).len() - 1 ==> cs.len() == k || cs[cs.len() - k - 1] == "/"@,
        k < directories_of(cs).len() - 1 ==> k < cs.len() && cs[cs.len() - k - 1] != "/"@,
    decreases cs.len(),
{
    assert(cs.subrange(0, cs.len() as int) =~= cs);
    assert(has_parent(cs) ==> directories_of(cs.drop_last()).len() > 0);
    if has_parent(cs) && k > 0 {
        let t = cs.drop_last();
        directories_go_up_to_the_root(t, k - 1);
        assert(t.subrange(0, t.len() - (k - 1)) =~= cs.subrange(0, cs.len() - k));
    }
}

/// The first directory with a module file is found.
pub proof fn first_module_is_found(s: Seq<bool>, i: int)
    requires
        0 <= i < s.len(),
        s[i],
        forall|j: int| 0 <= j < i ==> !#[trigger] s[j],
    ensures
        first_true(s) == i,
    decreases s.len(),
{
    if i > 0 {
        let t = s.subrange(1, s.len() as int);
        assert(!s[0]);
        assert forall|j: int| 0 <= j < i - 1 implies !#[trigger] t[j] by {
            assert(t[j] == s[j + 1]);
        }
        first_module_is_found(t, i - 1);
    }
}

/// Of the models that could be read, those for the language are kept, in their order.
pub proof fn models_are_kept_by_language(
    parsed: Seq<Option<ExternalLibraryModel>>,
    m: Option<ExternalLibraryModel>,
    language: Language,
)
    ensures
        m matches Some(x) ==> x.language == language ==> models_for(parsed.push(m), language)
            == models_for(parsed, language).push(x@),
        m matches Some(x) ==> x.language != language ==> models_for(parsed.push(m), language)
            == models_for(parsed, language),
        m is None ==> models_for(parsed.push(m), language) == models_for(parsed, language),
        models_for(Seq::empty(), language).len() == 0,
{
    assert(parsed.push(m).drop_last() =~= parsed);
}

/// The files in which a name was found are those of all functions of the name.
pub proof fn files_of_names_are_listed(
    nodes: Seq<NodeView>,
    n: NodeView,
    function: Seq<char>,
    positions: Seq<int>,
    i: int,
)
    ensures
        paths_at(nodes, positions).len() == positions.len(),
        0 <= i < positions.len() ==> paths_at(nodes, positions)[i]
            == nodes[positions[i]].location.file_path,
        n.name == function ==> paths_of_name(nodes.push(n), function) == paths_of_name(
            nodes,
            function,
        ).push(n.location.file_path),
        n.name != function ==> paths_of_name(nodes.push(n), function) == paths_of_name(
            nodes,
            function,
        ),
        paths_of_name(Seq::empty(), function).len() == 0,
{
    assert(nodes.push(n).drop_last() =~= nodes);
}

/// The jobs of a batch are inside a directory exactly if all their files are.
pub proof fn jobs_are_inside_if_all_files_are(jobs: Seq<Vec<String>>, root: Seq<char>)
    ensures
        all_inside(jobs, root) <==> forall|i: int, k: int|
            #![trigger jobs[i]@[k]]
            0 <= i < jobs.len() && 0 <= k < jobs[i]@.len() ==> path_has_prefix(jobs[i]@[k]@, root),
{
    if all_inside(jobs, root) {
        assert forall|i: int, k: int|
            #![trigger jobs[i]@[k]]
            0 <= i < jobs.len() && 0 <= k < jobs[i]@.len() implies path_has_prefix(
            jobs[i]@[k]@,
            root,
        ) by {
            let fs = texts(jobs[i]@);
            files_outside_are_found(fs, root);
            assert(first_outside(fs, root) == jobs[i]@.len());
            assert(path_has_prefix(fs[k], root));
        }
    } else {
        let i = choose|i: int|
            0 <= i < jobs.len() && first_outside(texts((#[trigger] jobs[i])@), root)
                != jobs[i]@.len();
        let fs = texts(jobs[i]@);
        files_outside_are_found(fs, root);
        let k = first_outside(fs, root);
        assert(!path_has_prefix(jobs[i]@[k]@, root));
    }
}

/// The error of a job names the job, the directory and a file outside it.
pub proof fn files_outside_are_named(
    files: Vec<String>,
    job: Seq<char>,
    root: Seq<char>,
    e: ModelErrorView,
)
    requires
        outside_error(files, job, root, e),
    ensures
        e matches ModelErrorView::OutsideWorkspace { job: j, root: r, file } && j == job && r == root
            && texts(files@).contains(file) && !path_has_prefix(file, root),
{
    let fs = texts(files@);
    files_outside_are_found(fs, root);
    let k = first_outside(fs, root);
    assert(fs[k] == files@[k]@);
    assert(fs.contains(fs[k]));
}

/// The text of an error names what it is about.
pub proof fn errors_name_their_subject(e: ModelErrorView)
    ensures
        match e {
            ModelErrorView::InvalidSymbol { symbol } => names(e.text(), symbol),
            ModelErrorView::EmptyPackage { symbol } => names(e.text(), symbol),
            ModelErrorView::EmptyFunction { symbol } => names(e.text(), symbol),
            ModelErrorView::UnknownFunction { function, symbol } => names(e.text(), symbol),
            ModelErrorView::InvalidEntryPoint { entry } => names(e.text(), entry),
            ModelErrorView::InvalidColumn { entry } => names(e.text(), entry),
            ModelErrorView::InvalidLine { entry } => names(e.text(), entry),
            ModelErrorView::UnresolvedSymbol { symbol, .. } => names(e.text(), symbol),
            ModelErrorView::ServerStopped { job } => names(e.text(), job),
            ModelErrorView::UnsupportedLanguage { language } => names(e.text(), language),
            ModelErrorView::OutsideWorkspace { file, .. } => names(e.text(), file),
            _ => true,
        },
{
    match e {
        ModelErrorView::InvalidSymbol { symbol } => {
            lemma_names(
                e.text(),
                "Invalid Go symbol '"@,
                symbol,
                "', expected 'pkg.func' (e.g. s3.resourceBucketCreate)"@,
            );
        },
        ModelErrorView::EmptyPackage { symbol } => {
            lemma_names(e.text(), "Invalid Go symbol '"@, symbol, "': empty package name"@);
        },
        ModelErrorView::EmptyFunction { symbol } => {
            lemma_names(e.text(), "Invalid Go symbol '"@, symbol, "': empty function name"@);
        },
        ModelErrorView::UnknownFunction { function, symbol } => {
            lemma_names(
                e.text(),
                "No function named '"@ + function + "' found in the call graph for symbol '"@,
                symbol,
                "'"@,
            );
        },
        ModelErrorView::InvalidEntryPoint { entry } => {
            lemma_names(
                e.text(),
                "Invalid entry point format '"@,
                entry,
                "', expected 'file:line:column' (e.g. handler.go:14:1)"@,
            );
        },
        ModelErrorView::InvalidColumn { entry } => {
            lemma_names(e.text(), "Invalid column in entry point '"@, entry, "'"@);
        },
        ModelErrorView::InvalidLine { entry } => {
            lemma_names(e.text(), "Invalid line number in entry point '"@, entry, "'"@);
        },
        ModelErrorView::UnresolvedSymbol { symbol, .. } => {
            lemma_names(e.text(), "Failed to resolve entry point symbol '"@, symbol, "'"@);
        },
        ModelErrorView::ServerStopped { job } => {
            lemma_names(
                e.text(),
                "Language server is no longer running (failed before job '"@,
                job,
                "')"@,
            );
        },
        ModelErrorView::UnsupportedLanguage { language } => {
            lemma_names(
                e.text(),
                "Model generation is not yet supported for "@,
                language,
                Seq::empty(),
            );
        },
        ModelErrorView::OutsideWorkspace { job, root, file } => {
            lemma_names(
                e.text(),
                "Job '"@ + job + "' has source file outside workspace root "@ + root + ": "@,
                file,
                Seq::empty(),
            );
        },
        _ => {},
    }
}

/// Whether a text names another: the other stands somewhere in it.
pub open spec fn names(text: Seq<char>, subject: Seq<char>) -> bool {
    exists|a: Seq<char>, b: Seq<char>| text == #[trigger] (a + subject + b)
}

proof fn lemma_names(text: Seq<char>, a: Seq<char>, subject: Seq<char>, b: Seq<char>)
    requires
        text =~= a + subject + b,
    ensures
        names(text, subject),
{
}

/// The text of an error names what it is about, and why it came.
pub proof fn extraction_errors_name_their_subject(e: ExtractorError)
    ensures
        match e {
            ExtractorError::FileSystem { operation, path, cause } => names(e.text(), operation@)
                && names(e.text(), path@) && names(e.text(), cause@),
            ExtractorError::JsonParsing { context, cause } => names(e.text(), context@) && names(
                e.text(),
                cause@,
            ),
            ExtractorError::UnsupportedFileLanguage { path, extension } => names(e.text(), path@)
                && names(e.text(), extension@),
            ExtractorError::Configuration { message, .. } => names(e.text(), message@),
            ExtractorError::Validation { message, .. } => names(e.text(), message@),
            ExtractorError::SdkProcessing { sdk_name, message, .. } => names(e.text(), sdk_name@)
                && names(e.text(), message@),
            ExtractorError::MethodExtraction { language, path, message, .. } => names(
                e.text(),
                language@,
            ) && names(e.text(), path@) && names(e.text(), message@),
            ExtractorError::PolicyGeneration { message, .. } => names(e.text(), message@),
            ExtractorError::InvalidServiceHints { suggestions } => names(e.text(), suggestions@),
            _ => true,
        },
{
    let none = Seq::<char>::empty();
    let t = e.text();
    match e {
        ExtractorError::FileSystem { operation, path, cause } => {
            let a = "File system error during "@;
            let b = " on path '"@;
            let c = "': "@;
            lemma_names(t, a, operation@, b + path@ + c + cause@);
            lemma_names(t, a + operation@ + b, path@, c + cause@);
            lemma_names(t, a + operation@ + b + path@ + c, cause@, none);
        },
        ExtractorError::JsonParsing { context, cause } => {
            let a = "JSON parsing error in "@;
            let b = ": "@;
            lemma_names(t, a, context@, b + cause@);
            lemma_names(t, a + context@ + b, cause@, none);
        },
        ExtractorError::UnsupportedFileLanguage { path, extension } => {
            let a = "Unsupported language for file '"@;
            let b = "' with extension '"@;
            let c = "'. Supported languages: Python, TypeScript, JavaScript, Go, Java"@;
            lemma_names(t, a, path@, b + extension@ + c);
            lemma_names(t, a + path@ + b, extension@, c);
        },
        ExtractorError::Configuration { message, .. } => {
            lemma_names(t, "Configuration error: "@, message@, none);
        },
        ExtractorError::Validation { message, .. } => {
            lemma_names(t, "Validation error: "@, message@, none);
        },
        ExtractorError::SdkProcessing { sdk_name, message, .. } => {
            let a = "SDK processing error for '"@;
            let b = "': "@;
            lemma_names(t, a, sdk_name@, b + message@);
            lemma_names(t, a + sdk_name@ + b, message@, none);
        },
        ExtractorError::MethodExtraction { language, path, message, .. } => {
            let a = "Method extraction failed for '"@;
            let b = "' in file '"@;
            let c = "': "@;
            lemma_names(t, a, language@, b + path@ + c + message@);
            lemma_names(t, a + language@ + b, path@, c + message@);
            lemma_names(t, a + language@ + b + path@ + c, message@, none);
        },
        ExtractorError::PolicyGeneration { message, .. } => {
            lemma_names(t, "Policy generation error: "@, message@, none);
        },
        ExtractorError::InvalidServiceHints { suggestions } => {
            lemma_names(t, "Provided service hints do not exist:\n"@, suggestions@, none);
        },
        _ => {},
    }
}

} // verus!
