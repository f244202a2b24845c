//! How the functions of Go code are named, found and placed in a workspace.

use vstd::prelude::*;

use crate::call_graph::{FunctionNode, NodeView};
use crate::casing::{is_ascii_upper, is_upper_case, upper_case};
use crate::go::{receiver_split, split_receiver};
use crate::library_model::{CallPatternKey, KeyView};
use crate::model_error::{ModelError, ModelErrorView};
use crate::order::views;
use crate::paths::{components, parent_name, path_components, path_parent_name};
use crate::text::{
    chars_of, find_char, find_from, rfind_before, rfind_char, same, text_between, texts,
};

verus! {

/// Whether Go exports a function of this name: whether the name, without a receiver, starts with a
/// capital.
pub open spec fn exported(name: Seq<char>) -> bool {
    let bare = receiver_split(name).1;
    bare.len() > 0 && is_upper_case(bare[0])
}

/// The package of a file: the name of its directory. A file without a directory has none.
pub open spec fn package_of(path: Seq<char>) -> Seq<char> {
    match path_parent_name(path) {
        Some(n) => n,
        None => Seq::empty(),
    }
}

/// What tells a function from others in a model: its package, its class and its name.
pub open spec fn function_key(n: NodeView) -> KeyView {
    let (class_name, function_name) = receiver_split(n.name);
    KeyView { module: package_of(n.location.file_path), class_name, function_name }
}

/// What stands behind the last slash.
pub open spec fn after_last_slash(s: Seq<char>) -> Seq<char> {
    s.subrange(rfind_before(s, '/', s.len() as int) + 1, s.len() as int)
}

/// The package and the function of a symbol: behind the last slash, the package goes up to the
/// first dot, and the function is all that follows it.
pub open spec fn go_symbol(symbol: Seq<char>) -> Result<(Seq<char>, Seq<char>), ModelErrorView> {
    let segment = after_last_slash(symbol);
    let dot = find_from(segment, '.', 0);
    if dot >= segment.len() {
        Err(ModelErrorView::InvalidSymbol { symbol })
    } else if dot == 0 {
        Err(ModelErrorView::EmptyPackage { symbol })
    } else if dot == segment.len() - 1 {
        Err(ModelErrorView::EmptyFunction { symbol })
    } else {
        Ok((segment.subrange(0, dot), segment.subrange(dot + 1, segment.len() as int)))
    }
}

/// Splits a symbol into its package and its function.
pub fn parse_go_symbol(symbol: &str) -> (r: Result<(String, String), ModelError>)
    ensures
        match r {
            Ok(p) => go_symbol(symbol@) == Ok::<(Seq<char>, Seq<char>), ModelErrorView>(
                (p.0@, p.1@),
            ),
            Err(e) => go_symbol(symbol@) == Err::<(Seq<char>, Seq<char>), ModelErrorView>(e@),
        },
{
    let all = chars_of(symbol);
    let start: usize = match rfind_char(&all, '/') {
        Some(i) => i + 1,
        None => 0,
    };
    let segment = text_between(&all, start, all.len());
    let v = chars_of(segment.as_str());
    let dot: usize = find_char(&v, '.', 0);
    if dot >= v.len() {
        return Err(ModelError::InvalidSymbol { symbol: symbol.to_string() });
    }
    if dot == 0 {
        return Err(ModelError::EmptyPackage { symbol: symbol.to_string() });
    }
    if dot == v.len() - 1 {
        return Err(ModelError::EmptyFunction { symbol: symbol.to_string() });
    }
    Ok((text_between(&v, 0, dot), text_between(&v, dot + 1, v.len())))
}

/// Whether the function has this name and stands in a directory of the name of the package.
pub open spec fn is_symbol(n: NodeView, package: Seq<char>, function: Seq<char>) -> bool {
    n.name == function && path_parent_name(n.location.file_path) == Some(package)
}

/// The positions of the functions that a symbol stands for.
pub open spec fn symbol_positions(
    nodes: Seq<NodeView>,
    package: Seq<char>,
    function: Seq<char>,
) -> Seq<int>
    decreases nodes.len(),
{
    if nodes.len() == 0 {
        Seq::empty()
    } else if is_symbol(nodes.last(), package, function) {
        symbol_positions(nodes.drop_last(), package, function).push(nodes.len() - 1)
    } else {
        symbol_positions(nodes.drop_last(), package, function)
    }
}

/// The paths of the functions at the positions.
pub open spec fn paths_at(nodes: Seq<NodeView>, positions: Seq<int>) -> Seq<Seq<char>> {
    positions.map_values(|i: int| nodes[i].location.file_path)
}

/// The paths of the functions of this name, in whatever package.
pub open spec fn paths_of_name(nodes: Seq<NodeView>, function: Seq<char>) -> Seq<Seq<char>>
    decreases nodes.len(),
{
    if nodes.len() == 0 {
        Seq::empty()
    } else if nodes.last().name == function {
        paths_of_name(nodes.drop_last(), function).push(nodes.last().location.file_path)
    } else {
        paths_of_name(nodes.drop_last(), function)
    }
}

/// The position of the one function that a symbol stands for. It is an error if there is none or
/// more than one.
pub open spec fn resolved_symbol(
    symbol: Seq<char>,
    nodes: Seq<NodeView>,
) -> Result<int, ModelErrorView> {
    match go_symbol(symbol) {
        Err(e) => Err(e),
        Ok((package, function)) => {
            let found = symbol_positions(nodes, package, function);
            let named = paths_of_name(nodes, function);
            if found.len() == 1 {
                Ok(found[0])
            } else if found.len() > 1 {
                Err(
                    ModelErrorView::AmbiguousSymbol {
                        symbol,
                        function,
                        package,
                        found: paths_at(nodes, found),
                    },
                )
            } else if named.len() == 0 {
                Err(ModelErrorView::UnknownFunction { function, symbol })
            } else {
                Err(ModelErrorView::WrongPackage { function, package, symbol, found: named })
            }
        },
    }
}

proof fn lemma_symbol_positions(nodes: Seq<NodeView>, package: Seq<char>, function: Seq<char>)
    ensures
        forall|k: int|
            0 <= k < symbol_positions(nodes, package, function).len() ==> 0
                <= #[trigger] symbol_positions(nodes, package, function)[k] < nodes.len()
                && is_symbol(
                nodes[symbol_positions(nodes, package, function)[k]],
                package,
                function,
            ),
        forall|i: int|
            0 <= i < nodes.len() && is_symbol(#[trigger] nodes[i], package, function)
                ==> symbol_positions(nodes, package, function).contains(i),
    decreases nodes.len(),
{
    if nodes.len() > 0 {
        let t = nodes.drop_last();
        let before = symbol_positions(t, package, function);
        let after = symbol_positions(nodes, package, function);
        lemma_symbol_positions(t, package, function);
        assert forall|k: int| 0 <= k < after.len() implies 0 <= #[trigger] after[k] < nodes.len()
            && is_symbol(nodes[after[k]], package, function) by {
            if k < before.len() {
                assert(after[k] == before[k]);
                assert(nodes[after[k]] == t[before[k]]);
            }
        }
        assert forall|i: int|
            0 <= i < nodes.len() && is_symbol(
                #[trigger] nodes[i],
                package,
                function,
            ) implies after.contains(i) by {
            if i < t.len() {
                assert(t[i] == nodes[i]);
                assert(before.contains(i));
                let k = choose|k: int| 0 <= k < before.len() && before[k] == i;
                assert(after[k] == i);
            } else {
                assert(after[before.len() as int] == i);
            }
        }
    }
}

/// A symbol that is resolved stands for the function at that position and for no other.
pub proof fn resolved_symbols_are_unique(
    symbol: Seq<char>,
    nodes: Seq<NodeView>,
    package: Seq<char>,
    function: Seq<char>,
    i: int,
    j: int,
)
    requires
        go_symbol(symbol) == Ok::<(Seq<char>, Seq<char>), ModelErrorView>((package, function)),
        resolved_symbol(symbol, nodes) == Ok::<int, ModelErrorView>(i),
        0 <= j < nodes.len(),
    ensures
        0 <= i < nodes.len(),
        is_symbol(nodes[j], package, function) <==> j == i,
{
    lemma_symbol_positions(nodes, package, function);
    let found = symbol_positions(nodes, package, function);
    assert(found[0] == i);
    if is_symbol(nodes[j], package, function) {
        let k = choose|k: int| 0 <= k < found.len() && found[k] == j;
        assert(k == 0);
    }
}

/// The rules of Go.
#[derive(Debug, Clone, Copy, PartialEq, Eq, Structural)]
pub struct GoConventions;

impl GoConventions {
    /// Whether the function can be used outside its package.
    pub fn is_exported(&self, node: &FunctionNode) -> (r: bool)
        ensures
            r == exported(node.name@),
            ({
                let bare = receiver_split(node.name@).1;
                bare.len() > 0 && (bare[0] as u32) < 128 ==> r == is_ascii_upper(bare[0])
            }),
    {
        let (_, bare) = split_receiver(node.name.as_str());
        let v = chars_of(bare.as_str());
        v.len() > 0 && upper_case(v[0])
    }

    /// The key that the function has in a model.
    pub fn parse_function_name(&self, node: &FunctionNode) -> (r: CallPatternKey)
        ensures
            r@ == function_key(node@),
    {
        let module = match parent_name(node.location.file_path.as_str()) {
            Some(n) => n,
            None => String::new(),
        };
        assert(module@ =~= package_of(node@.location.file_path));
        let (class_name, function_name) = split_receiver(node.name.as_str());
        CallPatternKey { module, class_name, function_name }
    }

    /// The one function that the symbol stands for.
    pub fn resolve_symbol<'a>(&self, symbol: &str, nodes: &'a Vec<FunctionNode>) -> (r: Result<
        &'a FunctionNode,
        ModelError,
    >)
        ensures
            match r {
                Ok(n) => resolved_symbol(symbol@, views(nodes@)) matches Ok(i) && 0 <= i
                    < nodes@.len() && *n == nodes@[i],
                Err(e) => resolved_symbol(symbol@, views(nodes@)) == Err::<int, ModelErrorView>(
                    e@,
                ),
            },
    {
        let (package, function) = match parse_go_symbol(symbol) {
            Ok(p) => p,
            Err(e) => {
                return Err(e);
            },
        };
        let ghost s = views(nodes@);
        let mut first: usize = 0;
        let mut found: Vec<String> = Vec::new();
        let mut named: Vec<String> = Vec::new();
        let mut i: usize = 0;
        proof {
            assert(s.subrange(0, 0).len() == 0);
            assert(texts(found@) =~= paths_at(s, Seq::<int>::empty()));
            assert(texts(named@) =~= Seq::<Seq<char>>::empty());
        }
        while i < nodes.len()
            invariant
                i <= nodes@.len(),
                s == views(nodes@),
                found@.len() == symbol_positions(s.subrange(0, i as int), package@, function@).len(),
                texts(found@) == paths_at(
                    s,
                    symbol_positions(s.subrange(0, i as int), package@, function@),
                ),
                found@.len() > 0 ==> first < nodes@.len() && first == symbol_positions(
                    s.subrange(0, i as int),
                    package@,
                    function@,
                )[0],
                texts(named@) == paths_of_name(s.subrange(0, i as int), function@),
            decreases nodes@.len() - i,
        {
            let ghost u = s.subrange(0, i + 1);
            let ghost t = s.subrange(0, i as int);
            let ghost before = texts(found@);
            let ghost names = texts(named@);
            let node = &nodes[i];
            assert(u.drop_last() =~= t);
            assert(u.last() == node@);
            if same(node.name.as_str(), function.as_str()) {
                named.push(node.location.file_path.clone());
                assert(texts(named@) =~= names.push(node@.location.file_path));
                if let Some(p) = parent_name(node.location.file_path.as_str()) {
                    if same(p.as_str(), package.as_str()) {
                        assert(is_symbol(u.last(), package@, function@));
                        if found.len() == 0 {
                            first = i;
                        }
                        found.push(node.location.file_path.clone());
                        proof {
                            let ps = symbol_positions(t, package@, function@);
                            assert(symbol_positions(u, package@, function@) == ps.push(i as int));
                            assert(texts(found@) =~= before.push(node@.location.file_path));
                            assert(s[i as int] == node@);
                            assert(paths_at(s, ps.push(i as int)) =~= before.push(
                                node@.location.file_path,
                            ));
                        }
                    }
                }
            }
            i = i + 1;
        }
        assert(s.subrange(0, s.len() as int) =~= s);
        assert(texts(named@).len() == named@.len());
        let symbol = symbol.to_string();
        if found.len() == 1 {
            Ok(&nodes[first])
        } else if found.len() > 1 {
            Err(ModelError::AmbiguousSymbol { symbol, function, package, found })
        } else if named.len() == 0 {
            Err(ModelError::UnknownFunction { function, symbol })
        } else {
            Err(ModelError::WrongPackage { function, package, symbol, found: named })
        }
    }

    /// The directories in which the root of the workspace is looked for, each as its components:
    /// that of the first source file and those around it, from the inside out.
    pub fn workspace_candidates(&self, source_files: &Vec<String>) -> (r: Result<
        Vec<Vec<String>>,
        ModelError,
    >)
        ensures
            match r {
                Ok(v) => has_workspace(texts(source_files@)) && component_lists(v@)
                    == directories_of(path_components(source_files@[0]@).drop_last()),
                Err(e) => e@ == ModelErrorView::NoSourceFiles && !has_workspace(
                    texts(source_files@),
                ),
            },
    {
        assert(texts(source_files@).len() == source_files@.len());
        if source_files.len() == 0 {
            return Err(ModelError::NoSourceFiles);
        }
        assert(texts(source_files@)[0] == source_files@[0]@);
        let mut cs = components(source_files[0].as_str());
        let ghost all = texts(cs@);
        if cs.len() == 0 || same(cs[cs.len() - 1].as_str(), "/") {
            assert(cs@.len() > 0 ==> all.last() == cs@.last()@);
            return Err(ModelError::NoSourceFiles);
        }
        assert(all.last() == cs@.last()@);
        cs.pop();
        let ghost start = texts(cs@);
        assert(start =~= all.drop_last());
        let mut out: Vec<Vec<String>> = Vec::new();
        assert(component_lists(out@) + directories_of(start) =~= directories_of(start));
        loop
            invariant_except_break
                component_lists(out@) + directories_of(texts(cs@)) == directories_of(start),
            ensures
                component_lists(out@) == directories_of(start),
            decreases cs@.len(),
        {
            let ghost now = texts(cs@);
            let ghost before = component_lists(out@);
            let dir = crate::sdk::copy_texts(&cs);
            out.push(dir);
            assert(component_lists(out@) =~= before.push(now));
            if cs.len() == 0 || same(cs[cs.len() - 1].as_str(), "/") {
                proof {
                    assert(cs@.len() > 0 ==> now.last() == cs@.last()@);
                    assert(!has_parent(now));
                    assert(directories_of(now) =~= seq![now]);
                    assert(before + seq![now] =~= before.push(now));
                }
                break;
            }
            assert(now.last() == cs@.last()@);
            cs.pop();
            proof {
                assert(texts(cs@) =~= now.drop_last());
                assert(before + (seq![now] + directories_of(now.drop_last())) =~= before.push(now)
                    + directories_of(now.drop_last()));
            }
        }
        Ok(out)
    }

    /// Which of the candidates is the root: the first that holds a `go.mod`, else the first.
    pub fn workspace_root(&self, has_go_mod: &Vec<bool>) -> (r: usize)
        requires
            has_go_mod@.len() > 0,
        ensures
            r < has_go_mod@.len(),
            r == (if exists|i: int| 0 <= i < has_go_mod@.len() && has_go_mod@[i] {
                first_true(has_go_mod@)
            } else {
                0
            }),
    {
        let ghost s = has_go_mod@;
        let mut i: usize = 0;
        assert(s.subrange(0, s.len() as int) =~= s);
        while i < has_go_mod.len()
            invariant
                i <= has_go_mod@.len(),
                s == has_go_mod@,
                forall|j: int| 0 <= j < i ==> !s[j],
                first_true(s) == i + first_true(s.subrange(i as int, s.len() as int)),
            decreases has_go_mod@.len() - i,
        {
            let ghost t = s.subrange(i as int, s.len() as int);
            assert(t[0] == s[i as int]);
            assert(t.subrange(1, t.len() as int) =~= s.subrange(i + 1, s.len() as int));
            if has_go_mod[i] {
                return i;
            }
            i = i + 1;
        }
        0
    }
}

/// The first position that holds `true`; the length if there is none.
pub open spec fn first_true(s: Seq<bool>) -> int
    decreases s.len(),
{
    if s.len() == 0 || s[0] {
        0
    } else {
        1 + first_true(s.subrange(1, s.len() as int))
    }
}

/// The texts of each list.
pub open spec fn component_lists(v: Seq<Vec<String>>) -> Seq<Seq<Seq<char>>> {
    v.map_values(|d: Vec<String>| texts(d@))
}

/// Whether something holds what a path with these components leads to.
pub open spec fn has_parent(cs: Seq<Seq<char>>) -> bool {
    cs.len() > 0 && cs.last() != "/"@
}

/// Whether there is a first file, and a directory that holds it.
pub open spec fn has_workspace(files: Seq<Seq<char>>) -> bool {
    files.len() > 0 && has_parent(path_components(files[0]))
}

/// A directory and those around it, from the inside out.
pub open spec fn directories_of(cs: Seq<Seq<char>>) -> Seq<Seq<Seq<char>>>
    decreases cs.len(),
{
    if has_parent(cs) {
        seq![cs] + directories_of(cs.drop_last())
    } else {
        seq![cs]
    }
}

} // verus!
