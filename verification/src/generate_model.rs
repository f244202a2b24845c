//! From source files and entry points to the models of libraries.

use vstd::prelude::*;

use crate::call_graph::{
    call_spans_fit, innermost, innermost_enclosing, CallGraph, FileFilter, FilterView, FunctionNode,
    GraphView, NodeView,
};
use crate::go_conventions::{exported, has_workspace, resolved_symbol, GoConventions};
use crate::language::{language_name, Language};
use crate::library_model::{ExternalLibraryModel, ModelView};
use crate::model_error::{ModelError, ModelErrorView};
use crate::model_generation::{patterns_for, Engine};
use crate::order::views;
use crate::paths::{
    contains_path, ends_with_path, has_path, path_has_prefix, path_has_suffix, starts_with_path,
};
use crate::sdk::{call_views, SdkCallView, SdkMethodCall};
use crate::text::{
    chars_of, decimal, parse_usize, parsed_unsigned, rfind_before, rfind_char, show_number,
    text_between, texts,
};
use crate::text_map::TextMap;

verus! {

/// The services that calls are narrowed to.
#[derive(Debug)]
pub struct ServiceHints {
    pub service_names: Vec<String>,
}

/// What a model is generated from.
#[derive(Debug)]
pub struct GenerateModelConfig {
    pub source_files: Vec<String>,
    /// The language, where it is not to be told from the files.
    pub language: Option<String>,
    /// The name of the library in the model.
    pub library_name: String,
    /// Entry points of the form `file:line:column`, counted from one.
    pub entry_points: Vec<String>,
    /// Entry points as symbols of the language, in Go `pkg.func`.
    pub entry_point_symbols: Vec<String>,
    pub service_hints: Option<ServiceHints>,
}

/// How a batch of models is generated.
#[derive(Debug)]
pub struct BatchOptions {
    /// The directory that the language server is started in. All source files are inside it.
    pub workspace_root: String,
    /// After how many jobs the language server is restarted, which bounds the memory that it
    /// takes. Zero stands for never.
    pub restart_every_n: usize,
}

impl Default for BatchOptions {
    fn default() -> (r: Self)
        ensures
            r.workspace_root@ == Seq::<char>::empty(),
            r.restart_every_n == 25,
    {
        let workspace_root = String::new();
        assert(workspace_root@ =~= Seq::<char>::empty());
        BatchOptions { workspace_root, restart_every_n: 25 }
    }
}

/// The rules of the language, if models can be generated for it.
pub fn conventions_for(language: Language) -> (r: Result<GoConventions, ModelError>)
    ensures
        match r {
            Ok(_) => language == Language::Go,
            Err(e) => language != Language::Go && e@ == (ModelErrorView::UnsupportedLanguage {
                language: language_name(language),
            }),
        },
{
    match language {
        Language::Go => Ok(GoConventions),
        _ => Err(ModelError::UnsupportedLanguage { language: language.to_string() }),
    }
}

/// The parts of `file:line:column`. The file may hold colons too.
pub open spec fn entry_parts(entry: Seq<char>) -> Option<(Seq<char>, Seq<char>, Seq<char>)> {
    let last = rfind_before(entry, ':', entry.len() as int);
    let middle = rfind_before(entry, ':', last);
    if last < 0 || middle < 0 {
        None
    } else {
        Some(
            (
                entry.subrange(0, middle),
                entry.subrange(middle + 1, last),
                entry.subrange(last + 1, entry.len() as int),
            ),
        )
    }
}

/// The file and the position of an entry point.
pub open spec fn entry_place(entry: Seq<char>) -> Result<
    (Seq<char>, (usize, usize)),
    ModelErrorView,
> {
    match entry_parts(entry) {
        None => Err(ModelErrorView::InvalidEntryPoint { entry }),
        Some((file, line, column)) => match (
            parsed_unsigned(column, usize::MAX as int),
            parsed_unsigned(line, usize::MAX as int),
        ) {
            (None, _) => Err(ModelErrorView::InvalidColumn { entry }),
            (_, None) => Err(ModelErrorView::InvalidLine { entry }),
            (Some(c), Some(l)) => Ok((file, (l as usize, c as usize))),
        },
    }
}

/// The paths of the functions that end with `file`, each once, in the order in which they occur.
pub open spec fn files_matching(nodes: Seq<NodeView>, file: Seq<char>) -> Seq<Seq<char>>
    decreases nodes.len(),
{
    if nodes.len() == 0 {
        Seq::empty()
    } else {
        let rest = files_matching(nodes.drop_last(), file);
        let path = nodes.last().location.file_path;
        if path_has_suffix(path, file) && !has_path(rest, path) {
            rest.push(path)
        } else {
            rest
        }
    }
}

/// A function as it is offered to a reader: its name and where it starts.
pub open spec fn offered(n: NodeView) -> Seq<char> {
    n.name + " ("@ + decimal(n.location.start_position.0 as nat) + ":"@ + decimal(
        n.location.start_position.1 as nat,
    ) + ")"@
}

/// The functions of the files that end with `file`, as they are offered to a reader.
pub open spec fn offers(nodes: Seq<NodeView>, file: Seq<char>) -> Seq<Seq<char>>
    decreases nodes.len(),
{
    if nodes.len() == 0 {
        Seq::empty()
    } else if path_has_suffix(nodes.last().location.file_path, file) {
        offers(nodes.drop_last(), file).push(offered(nodes.last()))
    } else {
        offers(nodes.drop_last(), file)
    }
}

/// The position of the function that an entry point stands for: the innermost one around the
/// place, in the one file whose path ends with that of the entry point.
pub open spec fn entry_function(
    entry: Seq<char>,
    nodes: Seq<NodeView>,
) -> Result<int, ModelErrorView> {
    match entry_place(entry) {
        Err(e) => Err(e),
        Ok((file, at)) => {
            let found = files_matching(nodes, file);
            if found.len() > 1 {
                Err(ModelErrorView::AmbiguousFile { file, entry, found })
            } else {
                match innermost(nodes, FilterView::EndsWith(file), at, at) {
                    Some(i) => Ok(i),
                    None => Err(
                        ModelErrorView::NoFunctionAt {
                            entry,
                            file,
                            available: offers(nodes, file),
                        },
                    ),
                }
            }
        },
    }
}

/// The functions of the entry points, or the error of the first that has none.
pub open spec fn entry_functions(
    entries: Seq<Seq<char>>,
    nodes: Seq<NodeView>,
) -> Result<Seq<NodeView>, ModelErrorView>
    decreases entries.len(),
{
    if entries.len() == 0 {
        Ok(Seq::empty())
    } else {
        match entry_functions(entries.drop_last(), nodes) {
            Err(e) => Err(e),
            Ok(v) => match entry_function(entries.last(), nodes) {
                Ok(i) => Ok(v.push(nodes[i])),
                Err(e) => Err(e),
            },
        }
    }
}

fn parse_entry_point(entry: &str) -> (r: Result<(String, (usize, usize)), ModelError>)
    ensures
        match r {
            Ok(p) => entry_place(entry@) == Ok::<(Seq<char>, (usize, usize)), ModelErrorView>(
                (p.0@, p.1),
            ),
            Err(e) => entry_place(entry@) == Err::<(Seq<char>, (usize, usize)), ModelErrorView>(
                e@,
            ),
        },
{
    let v = chars_of(entry);
    let last: usize = match rfind_char(&v, ':') {
        Some(i) => i,
        None => {
            return Err(ModelError::InvalidEntryPoint { entry: entry.to_string() });
        },
    };
    let head = chars_of(text_between(&v, 0, last).as_str());
    proof {
        lemma_rfind_in_prefix(v@, ':', last as int, last as int);
    }
    let middle: usize = match rfind_char(&head, ':') {
        Some(i) => i,
        None => {
            return Err(ModelError::InvalidEntryPoint { entry: entry.to_string() });
        },
    };
    let column = match parse_usize(text_between(&v, last + 1, v.len()).as_str()) {
        Some(c) => c,
        None => {
            return Err(ModelError::InvalidColumn { entry: entry.to_string() });
        },
    };
    let line = match parse_usize(text_between(&v, middle + 1, last).as_str()) {
        Some(l) => l,
        None => {
            return Err(ModelError::InvalidLine { entry: entry.to_string() });
        },
    };
    Ok((text_between(&v, 0, middle), (line, column)))
}

proof fn lemma_rfind_in_prefix(s: Seq<char>, c: char, n: int, to: int)
    requires
        0 <= to <= n <= s.len(),
    ensures
        rfind_before(s.subrange(0, n), c, to) == rfind_before(s, c, to),
    decreases to,
{
    if to > 0 {
        lemma_rfind_in_prefix(s, c, n, to - 1);
    }
}

fn find_files(nodes: &Vec<FunctionNode>, file: &str) -> (r: Vec<String>)
    ensures
        texts(r@) == files_matching(views(nodes@), file@),
{
    let ghost s = views(nodes@);
    let mut out: Vec<String> = Vec::new();
    let mut i: usize = 0;
    assert(s.subrange(0, 0).len() == 0);
    assert(texts(out@) =~= Seq::<Seq<char>>::empty());
    while i < nodes.len()
        invariant
            i <= nodes@.len(),
            s == views(nodes@),
            texts(out@) == files_matching(s.subrange(0, i as int), file@),
        decreases nodes@.len() - i,
    {
        let ghost u = s.subrange(0, i + 1);
        let ghost before = texts(out@);
        assert(u.drop_last() =~= s.subrange(0, i as int));
        assert(u.last() == nodes@[i as int]@);
        let path = &nodes[i].location.file_path;
        if ends_with_path(path.as_str(), file) && !contains_path(&out, path.as_str()) {
            out.push(path.clone());
            assert(texts(out@) =~= before.push(path@));
        }
        i = i + 1;
    }
    assert(s.subrange(0, s.len() as int) =~= s);
    out
}

fn find_offers(nodes: &Vec<FunctionNode>, file: &str) -> (r: Vec<String>)
    ensures
        texts(r@) == offers(views(nodes@), file@),
{
    let ghost s = views(nodes@);
    let mut out: Vec<String> = Vec::new();
    let mut i: usize = 0;
    assert(s.subrange(0, 0).len() == 0);
    assert(texts(out@) =~= Seq::<Seq<char>>::empty());
    while i < nodes.len()
        invariant
            i <= nodes@.len(),
            s == views(nodes@),
            texts(out@) == offers(s.subrange(0, i as int), file@),
        decreases nodes@.len() - i,
    {
        let ghost u = s.subrange(0, i + 1);
        let ghost before = texts(out@);
        assert(u.drop_last() =~= s.subrange(0, i as int));
        assert(u.last() == nodes@[i as int]@);
        let node = &nodes[i];
        if ends_with_path(node.location.file_path.as_str(), file) {
            let mut t = node.name.clone();
            t.append(" (");
            t.append(show_number(node.location.start_line() as u64).as_str());
            t.append(":");
            t.append(show_number(node.location.start_col() as u64).as_str());
            t.append(")");
            assert(t@ =~= offered(node@));
            out.push(t);
            assert(texts(out@) =~= before.push(offered(node@)));
        }
        i = i + 1;
    }
    assert(s.subrange(0, s.len() as int) =~= s);
    out
}

fn resolve_entry_point<'a>(entry: &str, nodes: &'a Vec<FunctionNode>) -> (r: Result<
    &'a FunctionNode,
    ModelError,
>)
    ensures
        match r {
            Ok(n) => entry_function(entry@, views(nodes@)) matches Ok(i) && 0 <= i < nodes@.len()
                && *n == nodes@[i],
            Err(e) => entry_function(entry@, views(nodes@)) == Err::<int, ModelErrorView>(e@),
        },
{
    let (file, at) = match parse_entry_point(entry) {
        Ok(p) => p,
        Err(e) => {
            return Err(e);
        },
    };
    let found = find_files(nodes, file.as_str());
    assert(texts(found@).len() == found@.len());
    if found.len() > 1 {
        return Err(ModelError::AmbiguousFile { file, entry: entry.to_string(), found });
    }
    let filter = FileFilter::EndsWith(file.clone());
    match innermost_enclosing(nodes, at, &filter) {
        Some(n) => Ok(n),
        None => {
            let available = find_offers(nodes, file.as_str());
            Err(ModelError::NoFunctionAt { entry: entry.to_string(), file, available })
        },
    }
}

/// The functions of entry points of the form `file:line:column`. The place may be anywhere in a
/// function; where functions are nested, the innermost one is taken.
pub fn resolve_entry_points(specs: &Vec<String>, nodes: &Vec<FunctionNode>) -> (r: Result<
    Vec<FunctionNode>,
    ModelError,
>)
    ensures
        match r {
            Ok(v) => entry_functions(texts(specs@), views(nodes@)) == Ok::<
                Seq<NodeView>,
                ModelErrorView,
            >(views(v@)),
            Err(e) => entry_functions(texts(specs@), views(nodes@)) == Err::<
                Seq<NodeView>,
                ModelErrorView,
            >(e@),
        },
{
    let ghost s = texts(specs@);
    let ghost n = views(nodes@);
    let mut out: Vec<FunctionNode> = Vec::new();
    let mut i: usize = 0;
    assert(s.subrange(0, 0).len() == 0);
    assert(views(out@) =~= Seq::<NodeView>::empty());
    while i < specs.len()
        invariant
            i <= specs@.len(),
            s == texts(specs@),
            n == views(nodes@),
            entry_functions(s.subrange(0, i as int), n) == Ok::<Seq<NodeView>, ModelErrorView>(
                views(out@),
            ),
        decreases specs@.len() - i,
    {
        let ghost u = s.subrange(0, i + 1);
        let ghost before = views(out@);
        assert(u.drop_last() =~= s.subrange(0, i as int));
        assert(u.last() == specs@[i as int]@);
        match resolve_entry_point(specs[i].as_str(), nodes) {
            Ok(node) => {
                out.push(node.clone());
                assert(views(out@) =~= before.push(node@));
            },
            Err(e) => {
                proof {
                    lemma_first_error_stays(s, n, i + 1);
                }
                return Err(e);
            },
        }
        i = i + 1;
    }
    assert(s.subrange(0, s.len() as int) =~= s);
    Ok(out)
}

proof fn lemma_first_error_stays(s: Seq<Seq<char>>, n: Seq<NodeView>, i: int)
    requires
        0 <= i <= s.len(),
        entry_functions(s.subrange(0, i), n) is Err,
    ensures
        entry_functions(s, n) == entry_functions(s.subrange(0, i), n),
    decreases s.len() - i,
{
    if i < s.len() {
        assert(s.subrange(0, i + 1).drop_last() =~= s.subrange(0, i));
        lemma_first_error_stays(s, n, i + 1);
    } else {
        assert(s.subrange(0, i) =~= s);
    }
}

/// The exported ones among the functions, in their order.
pub open spec fn exported_functions(nodes: Seq<NodeView>) -> Seq<NodeView>
    decreases nodes.len(),
{
    if nodes.len() == 0 {
        Seq::empty()
    } else if exported(nodes.last().name) {
        exported_functions(nodes.drop_last()).push(nodes.last())
    } else {
        exported_functions(nodes.drop_last())
    }
}

/// The functions of the symbols behind those of `first`, or the error of the first symbol that has
/// none.
pub open spec fn symbol_functions(
    first: Seq<NodeView>,
    symbols: Seq<Seq<char>>,
    nodes: Seq<NodeView>,
) -> Result<Seq<NodeView>, ModelErrorView>
    decreases symbols.len(),
{
    if symbols.len() == 0 {
        Ok(first)
    } else {
        match symbol_functions(first, symbols.drop_last(), nodes) {
            Err(e) => Err(e),
            Ok(v) => match resolved_symbol(symbols.last(), nodes) {
                Ok(i) => Ok(v.push(nodes[i])),
                Err(e) => Err(
                    ModelErrorView::UnresolvedSymbol { symbol: symbols.last(), cause: e.text() },
                ),
            },
        }
    }
}

/// The entry points of a model: those that are asked for, places before symbols. Where none is
/// asked for, they are all exported functions.
pub open spec fn entry_nodes_of(
    entries: Seq<Seq<char>>,
    symbols: Seq<Seq<char>>,
    nodes: Seq<NodeView>,
) -> Result<Seq<NodeView>, ModelErrorView> {
    if entries.len() == 0 && symbols.len() == 0 {
        Ok(exported_functions(nodes))
    } else {
        match entry_functions(entries, nodes) {
            Err(e) => Err(e),
            Ok(first) => symbol_functions(first, symbols, nodes),
        }
    }
}

fn find_exported(nodes: &Vec<FunctionNode>, conventions: &GoConventions) -> (r: Vec<FunctionNode>)
    ensures
        views(r@) == exported_functions(views(nodes@)),
{
    let ghost s = views(nodes@);
    let mut out: Vec<FunctionNode> = Vec::new();
    let mut i: usize = 0;
    assert(s.subrange(0, 0).len() == 0);
    assert(views(out@) =~= Seq::<NodeView>::empty());
    while i < nodes.len()
        invariant
            i <= nodes@.len(),
            s == views(nodes@),
            views(out@) == exported_functions(s.subrange(0, i as int)),
        decreases nodes@.len() - i,
    {
        let ghost u = s.subrange(0, i + 1);
        let ghost before = views(out@);
        assert(u.drop_last() =~= s.subrange(0, i as int));
        assert(u.last() == nodes@[i as int]@);
        if conventions.is_exported(&nodes[i]) {
            out.push(nodes[i].clone());
            assert(views(out@) =~= before.push(nodes@[i as int]@));
        }
        i = i + 1;
    }
    assert(s.subrange(0, s.len() as int) =~= s);
    out
}

proof fn lemma_symbol_error_stays(
    first: Seq<NodeView>,
    s: Seq<Seq<char>>,
    n: Seq<NodeView>,
    i: int,
)
    requires
        0 <= i <= s.len(),
        symbol_functions(first, s.subrange(0, i), n) is Err,
    ensures
        symbol_functions(first, s, n) == symbol_functions(first, s.subrange(0, i), n),
    decreases s.len() - i,
{
    if i < s.len() {
        assert(s.subrange(0, i + 1).drop_last() =~= s.subrange(0, i));
        lemma_symbol_error_stays(first, s, n, i + 1);
    } else {
        assert(s.subrange(0, i) =~= s);
    }
}

/// The entry points that the configuration asks for.
pub fn entry_nodes(
    config: &GenerateModelConfig,
    nodes: &Vec<FunctionNode>,
    conventions: &GoConventions,
) -> (r: Result<Vec<FunctionNode>, ModelError>)
    ensures
        match r {
            Ok(v) => entry_nodes_of(
                texts(config.entry_points@),
                texts(config.entry_point_symbols@),
                views(nodes@),
            ) == Ok::<Seq<NodeView>, ModelErrorView>(views(v@)),
            Err(e) => entry_nodes_of(
                texts(config.entry_points@),
                texts(config.entry_point_symbols@),
                views(nodes@),
            ) == Err::<Seq<NodeView>, ModelErrorView>(e@),
        },
{
    let ghost s = texts(config.entry_point_symbols@);
    let ghost n = views(nodes@);
    assert(texts(config.entry_points@).len() == config.entry_points@.len());
    if config.entry_points.len() == 0 && config.entry_point_symbols.len() == 0 {
        return Ok(find_exported(nodes, conventions));
    }
    let mut out = match resolve_entry_points(&config.entry_points, nodes) {
        Ok(v) => v,
        Err(e) => {
            return Err(e);
        },
    };
    let ghost first = views(out@);
    let mut i: usize = 0;
    assert(s.subrange(0, 0).len() == 0);
    while i < config.entry_point_symbols.len()
        invariant
            i <= config.entry_point_symbols@.len(),
            s == texts(config.entry_point_symbols@),
            n == views(nodes@),
            entry_nodes_of(texts(config.entry_points@), s, n) == symbol_functions(first, s, n),
            symbol_functions(first, s.subrange(0, i as int), n) == Ok::<
                Seq<NodeView>,
                ModelErrorView,
            >(views(out@)),
        decreases config.entry_point_symbols@.len() - i,
    {
        let ghost u = s.subrange(0, i + 1);
        let ghost before = views(out@);
        assert(u.drop_last() =~= s.subrange(0, i as int));
        let symbol = &config.entry_point_symbols[i];
        assert(u.last() == symbol@);
        match conventions.resolve_symbol(symbol.as_str(), nodes) {
            Ok(node) => {
                out.push(node.clone());
                assert(views(out@) =~= before.push(node@));
            },
            Err(e) => {
                proof {
                    lemma_symbol_error_stays(first, s, n, i + 1);
                }
                return Err(
                    ModelError::UnresolvedSymbol { symbol: symbol.clone(), cause: e.describe() },
                );
            },
        }
        i = i + 1;
    }
    assert(s.subrange(0, s.len() as int) =~= s);
    Ok(out)
}

/// The model that a configuration asks for. Files without a workspace have none.
pub open spec fn model_of(
    g: GraphView,
    files: Seq<Seq<char>>,
    entries: Seq<Seq<char>>,
    symbols: Seq<Seq<char>>,
    calls: Seq<SdkCallView>,
    library_name: Seq<char>,
    language: Language,
) -> Result<ModelView, ModelErrorView> {
    if !has_workspace(files) {
        Err(ModelErrorView::NoSourceFiles)
    } else {
        match entry_nodes_of(entries, symbols, g.nodes) {
            Err(e) => Err(e),
            Ok(v) => Ok(
                ModelView {
                    library_name,
                    language,
                    version: None,
                    call_patterns: patterns_for(g, v, calls),
                },
            ),
        }
    }
}

/// The model of one library, from the call graph of its source files and the SDK calls in them.
/// `source_files` are the files of the configuration with their links resolved.
pub fn generate_one(
    graph: &CallGraph,
    config: &GenerateModelConfig,
    source_files: &Vec<String>,
    sdk_calls: &Vec<SdkMethodCall>,
    language: Language,
    conventions: &GoConventions,
) -> (r: Result<ExternalLibraryModel, ModelError>)
    requires
        call_spans_fit(graph@, call_views(sdk_calls@)),
    ensures
        match r {
            Ok(m) => model_of(
                graph@,
                texts(source_files@),
                texts(config.entry_points@),
                texts(config.entry_point_symbols@),
                call_views(sdk_calls@),
                config.library_name@,
                language,
            ) == Ok::<ModelView, ModelErrorView>(m@),
            Err(e) => model_of(
                graph@,
                texts(source_files@),
                texts(config.entry_points@),
                texts(config.entry_point_symbols@),
                call_views(sdk_calls@),
                config.library_name@,
                language,
            ) == Err::<ModelView, ModelErrorView>(e@),
        },
{
    if let Err(e) = conventions.workspace_candidates(source_files) {
        return Err(e);
    }
    match entry_nodes(config, graph.nodes(), conventions) {
        Ok(entries) => Ok(
            Engine::new().generate(
                graph,
                &entries,
                sdk_calls,
                config.library_name.as_str(),
                language,
                conventions,
            ),
        ),
        Err(e) => Err(e),
    }
}

/// The first file of a job that is outside the root: its position, or the number of the files.
pub open spec fn first_outside(files: Seq<Seq<char>>, root: Seq<char>) -> int
    decreases files.len(),
{
    if files.len() == 0 || !path_has_prefix(files[0], root) {
        0
    } else {
        1 + first_outside(files.subrange(1, files.len() as int), root)
    }
}

fn find_outside(files: &Vec<String>, root: &str) -> (r: usize)
    ensures
        r == first_outside(texts(files@), root@),
        r <= files@.len(),
{
    let ghost s = texts(files@);
    let mut i: usize = 0;
    assert(s.subrange(0, s.len() as int) =~= s);
    while i < files.len()
        invariant
            i <= files@.len(),
            s == texts(files@),
            first_outside(s, root@) == i + first_outside(
                s.subrange(i as int, s.len() as int),
                root@,
            ),
        decreases files@.len() - i,
    {
        let ghost t = s.subrange(i as int, s.len() as int);
        assert(t[0] == files@[i as int]@);
        assert(t.subrange(1, t.len() as int) =~= s.subrange(i + 1, s.len() as int));
        if !starts_with_path(files[i].as_str(), root) {
            return i;
        }
        i = i + 1;
    }
    i
}

/// Whether all files of all jobs are inside the root.
pub open spec fn all_inside(jobs: Seq<Vec<String>>, root: Seq<char>) -> bool {
    forall|i: int|
        0 <= i < jobs.len() ==> first_outside(texts((#[trigger] jobs[i])@), root)
            == jobs[i]@.len()
}

/// Checks that the files of all jobs are inside the root of the workspace.
pub fn check_jobs(configs: &Vec<GenerateModelConfig>, jobs: &Vec<Vec<String>>, root: &str) -> (r:
    Result<(), ModelError>)
    requires
        configs@.len() == jobs@.len(),
    ensures
        match r {
            Ok(_) => all_inside(jobs@, root@),
            Err(e) => exists|i: int|
                0 <= i < jobs@.len() && all_inside(jobs@.subrange(0, i), root@)
                    && outside_error(#[trigger] jobs@[i], configs@[i].library_name@, root@, e@),
        },
{
    let mut i: usize = 0;
    while i < jobs.len()
        invariant
            i <= jobs@.len(),
            configs@.len() == jobs@.len(),
            all_inside(jobs@.subrange(0, i as int), root@),
        decreases jobs@.len() - i,
    {
        let k: usize = find_outside(&jobs[i], root);
        if k < jobs[i].len() {
            let e = ModelError::OutsideWorkspace {
                job: configs[i].library_name.clone(),
                root: root.to_string(),
                file: jobs[i][k].clone(),
            };
            assert(outside_error(jobs@[i as int], configs@[i as int].library_name@, root@, e@));
            return Err(e);
        }
        proof {
            let t = jobs@.subrange(0, i as int);
            let u = jobs@.subrange(0, i + 1);
            assert forall|j: int| 0 <= j < u.len() implies first_outside(
                texts((#[trigger] u[j])@),
                root@,
            ) == u[j]@.len() by {
                if j < i {
                    assert(u[j] == t[j]);
                }
            }
        }
        i = i + 1;
    }
    assert(jobs@.subrange(0, jobs@.len() as int) =~= jobs@);
    Ok(())
}

/// Whether the error tells of the first file of the job that is outside the root.
pub open spec fn outside_error(
    files: Vec<String>,
    job: Seq<char>,
    root: Seq<char>,
    e: ModelErrorView,
) -> bool {
    let k = first_outside(texts(files@), root);
    k < files@.len() && e == (ModelErrorView::OutsideWorkspace { job, root, file: files@[k]@ })
}

/// What a batch does next. The numbers are those of jobs.
#[derive(Debug, Clone, Copy, PartialEq, Eq, Structural)]
pub enum BatchAction {
    /// Start a new language server, and end the old one.
    Restart(usize),
    /// See whether the server is still running.
    Probe(usize),
    /// Do the job.
    Run(usize),
    /// End the server, whether the batch was a success or not.
    Shutdown(bool),
}

/// Whether the server is restarted before a job: before every n-th, but not before the first.
pub open spec fn is_restart_due(job: int, restart_every_n: int) -> bool {
    restart_every_n != 0 && job != 0 && job % restart_every_n == 0
}

/// What a batch does before a job.
pub open spec fn before_job(job: usize, jobs: usize, restart_every_n: usize) -> BatchAction {
    if job >= jobs {
        BatchAction::Shutdown(true)
    } else if is_restart_due(job as int, restart_every_n as int) {
        BatchAction::Restart(job)
    } else {
        BatchAction::Probe(job)
    }
}

/// What a batch does after an action that went well or not.
pub open spec fn batch_next(
    last: BatchAction,
    went_well: bool,
    jobs: usize,
    restart_every_n: usize,
) -> BatchAction {
    if !went_well {
        BatchAction::Shutdown(false)
    } else {
        match last {
            BatchAction::Restart(i) => BatchAction::Probe(i),
            BatchAction::Probe(i) => BatchAction::Run(i),
            BatchAction::Run(i) => before_job((i + 1) as usize, jobs, restart_every_n),
            BatchAction::Shutdown(ok) => BatchAction::Shutdown(ok),
        }
    }
}

fn before(job: usize, jobs: usize, restart_every_n: usize) -> (r: BatchAction)
    ensures
        r == before_job(job, jobs, restart_every_n),
{
    if job >= jobs {
        BatchAction::Shutdown(true)
    } else if restart_every_n != 0 && job != 0 && job % restart_every_n == 0 {
        BatchAction::Restart(job)
    } else {
        BatchAction::Probe(job)
    }
}

/// The first action of a batch. A batch without jobs needs no server.
pub fn first_action(jobs: usize, restart_every_n: usize) -> (r: BatchAction)
    ensures
        r == before_job(0, jobs, restart_every_n),
        r == (if jobs == 0 {
            BatchAction::Shutdown(true)
        } else {
            BatchAction::Probe(0)
        }),
{
    before(0, jobs, restart_every_n)
}

/// The action after one that went well or not. The server that does not run any more is one that
/// did not go well.
pub fn next_action(
    last: BatchAction,
    went_well: bool,
    jobs: usize,
    restart_every_n: usize,
) -> (r: BatchAction)
    requires
        last matches BatchAction::Run(i) ==> i < jobs,
    ensures
        r == batch_next(last, went_well, jobs, restart_every_n),
{
    if !went_well {
        return BatchAction::Shutdown(false);
    }
    match last {
        BatchAction::Restart(i) => BatchAction::Probe(i),
        BatchAction::Probe(i) => BatchAction::Run(i),
        BatchAction::Run(i) => before(i + 1, jobs, restart_every_n),
        BatchAction::Shutdown(ok) => BatchAction::Shutdown(ok),
    }
}

/// What the batch does after so many steps that all go well.
pub open spec fn action_after(steps: nat, jobs: usize, restart_every_n: usize) -> BatchAction
    decreases steps,
{
    if steps == 0 {
        before_job(0, jobs, restart_every_n)
    } else {
        batch_next(action_after((steps - 1) as nat, jobs, restart_every_n), true, jobs, restart_every_n)
    }
}

/// The job that an action is about; the number of jobs once the server is ended.
pub open spec fn action_job(a: BatchAction, jobs: usize) -> int {
    match a {
        BatchAction::Restart(i) => i as int,
        BatchAction::Probe(i) => i as int,
        BatchAction::Run(i) => i as int,
        BatchAction::Shutdown(_) => jobs as int,
    }
}

spec fn steps_left(a: BatchAction, jobs: usize) -> int {
    match a {
        BatchAction::Restart(i) => 3 * (jobs - i),
        BatchAction::Probe(i) => 3 * (jobs - i) - 1,
        BatchAction::Run(i) => 3 * (jobs - i) - 2,
        BatchAction::Shutdown(_) => 0,
    }
}

proof fn lemma_batch_progress(steps: nat, jobs: usize, restart_every_n: usize)
    ensures
        ({
            let a = action_after(steps, jobs, restart_every_n);
            &&& 0 <= action_job(a, jobs) <= jobs
            &&& a is Shutdown || action_job(a, jobs) < jobs
            &&& a matches BatchAction::Shutdown(ok) ==> ok
            &&& steps_left(a, jobs) <= 3 * jobs - steps || a is Shutdown
        }),
    decreases steps,
{
    if steps > 0 {
        lemma_batch_progress((steps - 1) as nat, jobs, restart_every_n);
    }
}

/// A batch in which all goes well ends its server after three steps for each job at most, and
/// reports a success.
pub proof fn batches_end(jobs: usize, restart_every_n: usize)
    ensures
        action_after((3 * jobs) as nat, jobs, restart_every_n) == BatchAction::Shutdown(true),
{
    lemma_batch_progress((3 * jobs) as nat, jobs, restart_every_n);
}

/// In a batch in which all goes well the jobs are taken in their order, none is left out, and none
/// is run without a look at the server.
pub proof fn jobs_run_in_order(steps: nat, jobs: usize, restart_every_n: usize)
    ensures
        ({
            let a = action_after(steps, jobs, restart_every_n);
            let b = action_after(steps + 1, jobs, restart_every_n);
            &&& action_job(b, jobs) == action_job(a, jobs) || (a is Run && action_job(b, jobs)
                == action_job(a, jobs) + 1)
            &&& b is Run ==> a == BatchAction::Probe(action_job(b, jobs) as usize)
            &&& b is Restart ==> is_restart_due(action_job(b, jobs), restart_every_n as int)
            &&& a is Run ==> b !is Run
        }),
{
    lemma_batch_progress(steps, jobs, restart_every_n);
}

/// The service hint for a package of the AWS SDK for Go: the service that imports of the package
/// stand for, else the package itself. There is none if extraction does not know the service.
pub open spec fn service_hint(
    package: Seq<char>,
    imports: Map<Seq<char>, Seq<char>>,
    known: Set<Seq<char>>,
) -> Option<Seq<char>> {
    if imports.contains_key(package) && known.contains(imports[package]) {
        Some(imports[package])
    } else if known.contains(package) {
        Some(package)
    } else {
        None
    }
}

pub open spec fn text_values(m: Map<Seq<char>, String>) -> Map<Seq<char>, Seq<char>> {
    m.map_values(|s: String| s@)
}

/// The service hint for a package of the AWS SDK for Go. `imports` has the services that imports of
/// packages stand for, `known_services` those that extraction knows.
pub fn terraform_service_hint<V>(
    go_sdk_import_package: &str,
    imports: &TextMap<String>,
    known_services: &TextMap<V>,
) -> (r: Option<String>)
    ensures
        crate::text::opt_text(r) == service_hint(
            go_sdk_import_package@,
            text_values(imports@),
            known_services@.dom(),
        ),
{
    if let Some(service) = imports.get(go_sdk_import_package) {
        if known_services.contains_key(service.as_str()) {
            return Some(service.clone());
        }
    }
    if known_services.contains_key(go_sdk_import_package) {
        Some(go_sdk_import_package.to_string())
    } else {
        None
    }
}

/// A hint always names a service that extraction knows.
pub proof fn hints_are_known(
    package: Seq<char>,
    imports: Map<Seq<char>, Seq<char>>,
    known: Set<Seq<char>>,
)
    ensures
        service_hint(package, imports, known) matches Some(s) ==> known.contains(s),
{
}

} // verus!
