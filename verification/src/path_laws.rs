//! What holds of paths.

use vstd::prelude::*;

use crate::paths::{
    component_lt, components_lt, has_path, is_name, name_extension, path_components, path_extension,
    path_has_prefix, path_has_suffix, path_name, path_parent_name, pieces_kept,
};
use crate::text::{split_on, text_lt};
use crate::text_laws::{
    characters_are_found_last, pieces_make_up_the_text, texts_are_cut_everywhere,
};

verus! {

/// Whether a piece of a path behind its first one is a component.
pub open spec fn is_component(piece: Seq<char>) -> bool {
    piece.len() > 0 && piece != "."@
}

proof fn lemma_pieces(a: Seq<Seq<char>>, b: Seq<Seq<char>>)
    requires
        a.len() > 0,
    ensures
        pieces_kept(a + b) == pieces_kept(a) + b.filter(|p: Seq<char>| is_component(p)),
    decreases b.len(),
{
    reveal(Seq::filter);
    let f = |p: Seq<char>| is_component(p);
    let v = a + b;
    if b.len() == 0 {
        assert(v =~= a);
        assert(pieces_kept(a) + b.filter(f) =~= pieces_kept(a));
    } else {
        let t = b.drop_last();
        lemma_pieces(a, t);
        assert(v.drop_last() =~= a + t);
        assert(v.last() == b.last());
        assert(pieces_kept(v) =~= pieces_kept(a) + b.filter(f));
    }
}

/// What stands behind a slash adds its pieces to the components; empty ones and single dots do not
/// count.
pub proof fn paths_are_made_of_components(a: Seq<char>, b: Seq<char>)
    ensures
        a.len() > 0 ==> path_components(a + seq!['/'] + b) == path_components(a) + split_on(
            b,
            '/',
        ).filter(|p: Seq<char>| is_component(p)),
        path_components(seq!['/'] + b) == seq!["/"@] + split_on(b, '/').filter(
            |p: Seq<char>| is_component(p),
        ),
{
    let f = |p: Seq<char>| is_component(p);
    let none = Seq::<char>::empty();
    let rest = split_on(b, '/').filter(f);
    if a.len() > 0 {
        let s = a + seq!['/'] + b;
        texts_are_cut_everywhere(a, '/', b);
        pieces_make_up_the_text(a, '/');
        lemma_pieces(split_on(a, '/'), split_on(b, '/'));
        assert(s[0] == a[0]);
        assert(path_components(s) =~= path_components(a) + rest);
    }
    let r = seq!['/'] + b;
    texts_are_cut_everywhere(none, '/', b);
    assert(none + seq!['/'] + b =~= r);
    assert(split_on(none, '/') == seq![none]);
    let first = seq![none];
    lemma_pieces(first, split_on(b, '/'));
    assert(first.drop_last() =~= Seq::<Seq<char>>::empty());
    assert(first.last().len() == 0);
    assert(pieces_kept(first) == pieces_kept(first.drop_last()));
    assert(pieces_kept(first) =~= Seq::<Seq<char>>::empty());
    assert(path_components(r) =~= seq!["/"@] + rest);
}

/// A name is one component of a path.
pub proof fn names_are_components(a: Seq<char>, n: Seq<char>)
    requires
        n.len() > 0,
        n != "."@,
        !n.contains('/'),
    ensures
        path_components(n) == seq![n],
        path_components(seq!['/'] + n) == seq!["/"@, n],
        a.len() > 0 ==> path_components(a + seq!['/'] + n) == path_components(a).push(n),
{
    reveal(Seq::filter);
    let none = Seq::<char>::empty();
    texts_are_cut_everywhere(n, '/', none);
    let one = seq![n];
    let f = |p: Seq<char>| is_component(p);
    assert(one.drop_last() =~= Seq::<Seq<char>>::empty());
    assert(one.drop_last().filter(f) =~= Seq::<Seq<char>>::empty());
    assert(one.filter(f) =~= one);
    assert(pieces_kept(one.drop_last()) =~= Seq::<Seq<char>>::empty());
    assert(pieces_kept(one) =~= one);
    assert(n[0] != '/') by {
        assert(n.contains(n[0]));
    }
    assert(path_components(n) =~= one);
    paths_are_made_of_components(a, n);
    assert(seq!["/"@] + one =~= seq!["/"@, n]);
    assert(path_components(a) + one =~= path_components(a).push(n));
}

/// Repeated slashes, slashes at the end and single dots behind the start do not matter.
pub proof fn spellings_of_paths(a: Seq<char>, b: Seq<char>)
    requires
        a.len() > 0,
    ensures
        path_components(a + seq!['/', '/'] + b) == path_components(a + seq!['/'] + b),
        path_components(a + seq!['/', '.', '/'] + b) == path_components(a + seq!['/'] + b),
        path_components(a + seq!['/']) == path_components(a),
        path_components(a + seq!['/', '.']) == path_components(a),
{
    reveal(Seq::filter);
    reveal_strlit(".");
    let f = |p: Seq<char>| is_component(p);
    let none = Seq::<char>::empty();
    let dot = seq!['.'];
    assert(dot =~= "."@);
    if dot.contains('/') {
        assert(dot[0] == '/');
    }
    paths_are_made_of_components(a, b);
    let x = none + seq!['/'] + b;
    let y = dot + seq!['/'] + b;
    texts_are_cut_everywhere(none, '/', b);
    texts_are_cut_everywhere(dot, '/', b);
    paths_are_made_of_components(a, x);
    paths_are_made_of_components(a, y);
    assert(a + seq!['/'] + x =~= a + seq!['/', '/'] + b);
    assert(a + seq!['/'] + y =~= a + seq!['/', '.', '/'] + b);
    lemma_filter_drops(none, split_on(b, '/'));
    lemma_filter_drops(dot, split_on(b, '/'));
    paths_are_made_of_components(a, none);
    paths_are_made_of_components(a, dot);
    lemma_filter_drops(none, Seq::empty());
    lemma_filter_drops(dot, Seq::empty());
    assert(seq![none] + Seq::<Seq<char>>::empty() =~= seq![none]);
    assert(seq![dot] + Seq::<Seq<char>>::empty() =~= seq![dot]);
    assert(Seq::<Seq<char>>::empty().filter(f) =~= Seq::<Seq<char>>::empty());
    assert(a + seq!['/'] + none =~= a + seq!['/']);
    assert(a + seq!['/'] + dot =~= a + seq!['/', '.']);
    assert(path_components(a) + Seq::<Seq<char>>::empty() =~= path_components(a));
}

proof fn lemma_filter_drops(p: Seq<char>, v: Seq<Seq<char>>)
    requires
        !is_component(p),
    ensures
        (seq![p] + v).filter(|p: Seq<char>| is_component(p)) == v.filter(
            |p: Seq<char>| is_component(p),
        ),
    decreases v.len(),
{
    reveal(Seq::filter);
    let f = |p: Seq<char>| is_component(p);
    let w = seq![p] + v;
    if v.len() == 0 {
        assert(w.drop_last() =~= v);
        assert(w.last() == p);
    } else {
        lemma_filter_drops(p, v.drop_last());
        assert(w.drop_last() =~= seq![p] + v.drop_last());
        assert(w.last() == v.last());
    }
}

/// A path ends with another if its last components are those of the other, and starts with it if its
/// first ones are.
pub proof fn paths_end_and_start_with_components(p: Seq<char>, q: Seq<char>)
    ensures
        path_has_suffix(p, q) <==> exists|cs: Seq<Seq<char>>|
            path_components(p) == #[trigger] (cs + path_components(q)),
        path_has_prefix(p, q) <==> exists|cs: Seq<Seq<char>>|
            path_components(p) == #[trigger] (path_components(q) + cs),
{
    let a = path_components(p);
    let b = path_components(q);
    if path_has_suffix(p, q) {
        assert(a =~= a.subrange(0, a.len() - b.len()) + b);
    }
    assert forall|cs: Seq<Seq<char>>| a == #[trigger] (cs + b) implies path_has_suffix(p, q) by {
        assert(a.subrange(a.len() - b.len(), a.len() as int) =~= b);
    }
    if path_has_prefix(p, q) {
        assert(a =~= b + a.subrange(b.len() as int, a.len() as int));
    }
    assert forall|cs: Seq<Seq<char>>| a == #[trigger] (b + cs) implies path_has_prefix(p, q) by {
        assert(a.subrange(0, b.len() as int) =~= b);
    }
}

/// A path is among others if one of them has the same components, however it is written.
pub proof fn paths_are_found_by_components(paths: Seq<Seq<char>>, p: Seq<char>)
    ensures
        has_path(paths, p) <==> exists|i: int|
            0 <= i < paths.len() && path_components(#[trigger] paths[i]) == path_components(p),
{
}

/// The name of a path is its last component, and the name of its parent the one before.
pub proof fn paths_have_names(a: Seq<char>, parent: Seq<char>, n: Seq<char>)
    requires
        a.len() > 0,
        n.len() > 0,
        n != "."@,
        n != ".."@,
        !n.contains('/'),
        parent.len() > 0,
        parent != "."@,
        parent != ".."@,
        !parent.contains('/'),
    ensures
        path_name(n) == Some(n),
        path_name(a + seq!['/'] + n) == Some(n),
        path_parent_name(a + seq!['/'] + parent + seq!['/'] + n) == Some(parent),
        path_parent_name(parent + seq!['/'] + n) == Some(parent),
        path_parent_name(seq!['/'] + parent + seq!['/'] + n) == Some(parent),
        path_parent_name(n) is None,
{
    lemma_no_root(n);
    lemma_no_root(parent);
    names_are_components(a, n);
    names_are_components(a, parent);
    let p = a + seq!['/'] + parent;
    names_are_components(p, n);
    assert(path_components(p + seq!['/'] + n).drop_last() =~= path_components(p));
    assert(p + seq!['/'] + n =~= a + seq!['/'] + parent + seq!['/'] + n);
    names_are_components(parent, n);
    assert(path_components(parent + seq!['/'] + n).drop_last() =~= seq![parent]);
    let r = seq!['/'] + parent;
    names_are_components(r, n);
    assert(path_components(r + seq!['/'] + n).drop_last() =~= seq!["/"@, parent]);
    assert(r + seq!['/'] + n =~= seq!['/'] + parent + seq!['/'] + n);
    assert(path_components(n).drop_last() =~= Seq::<Seq<char>>::empty());
}

proof fn lemma_no_root(n: Seq<char>)
    requires
        n.len() > 0,
        !n.contains('/'),
    ensures
        n != "/"@,
{
    reveal_strlit("/");
    if n == "/"@ {
        assert(n[0] == '/');
    }
}

/// The extension of a name is what stands behind its last dot, unless that dot is its first
/// character.
pub proof fn names_have_extensions(stem: Seq<char>, e: Seq<char>)
    requires
        !e.contains('.'),
    ensures
        stem.len() > 0 ==> name_extension(stem + seq!['.'] + e) == Some(e),
        name_extension(seq!['.'] + e) is None,
        name_extension(e) is None,
{
    let none = Seq::<char>::empty();
    let s = stem + seq!['.'] + e;
    characters_are_found_last(stem, '.', e);
    assert(s.subrange(stem.len() as int + 1, s.len() as int) =~= e);
    characters_are_found_last(none, '.', e);
    assert(none + seq!['.'] + e =~= seq!['.'] + e);
}

/// The extension of a path is that of its name.
pub proof fn paths_have_extensions(a: Seq<char>, stem: Seq<char>, e: Seq<char>)
    requires
        stem.len() > 0,
        !stem.contains('/'),
        !e.contains('/'),
        !e.contains('.'),
        e.len() > 0,
        stem[0] != '.',
    ensures
        path_extension(stem + seq!['.'] + e) == Some(e),
        a.len() > 0 ==> path_extension(a + seq!['/'] + (stem + seq!['.'] + e)) == Some(e),
{
    reveal_strlit(".");
    reveal_strlit("..");
    let n = stem + seq!['.'] + e;
    if n.contains('/') {
        let k = choose|k: int| 0 <= k < n.len() && n[k] == '/';
        if k < stem.len() {
            assert(stem[k] == '/');
        } else {
            assert(e[k - stem.len() - 1] == '/');
        }
    }
    assert(n[0] == stem[0]);
    assert("."@[0] == '.' && ".."@[0] == '.');
    names_are_components(a, n);
    lemma_no_root(n);
    names_have_extensions(stem, e);
}

/// Paths are compared at the first component in which they differ; a path that is the start of
/// another comes before it.
pub proof fn paths_are_compared_at_the_first_difference(
    a: Seq<Seq<char>>,
    b: Seq<Seq<char>>,
    k: int,
)
    requires
        0 <= k <= a.len(),
        k <= b.len(),
        a.subrange(0, k) == b.subrange(0, k),
    ensures
        k < a.len() && k < b.len() && a[k] != b[k] ==> components_lt(a, b) == component_lt(
            a[k],
            b[k],
        ),
        k == a.len() && k < b.len() ==> components_lt(a, b),
        k == b.len() ==> !components_lt(a, b),
    decreases k,
{
    if k > 0 {
        let x = a.subrange(1, a.len() as int);
        let y = b.subrange(1, b.len() as int);
        assert(a[0] == a.subrange(0, k)[0] && b[0] == b.subrange(0, k)[0]);
        assert(x.subrange(0, k - 1) =~= a.subrange(0, k).subrange(1, k));
        assert(y.subrange(0, k - 1) =~= b.subrange(0, k).subrange(1, k));
        paths_are_compared_at_the_first_difference(x, y, k - 1);
    }
}

/// Of two components the root comes before a dot, that before two dots, and those before a name; names
/// are compared as texts.
pub proof fn components_are_ordered_by_kind(a: Seq<char>, b: Seq<char>)
    requires
        is_name(a),
        is_name(b),
    ensures
        component_lt(a, b) == text_lt(a, b),
        component_lt("/"@, "."@) && component_lt("."@, ".."@) && component_lt(".."@, a),
        component_lt("/"@, a) && component_lt("."@, a) && component_lt("/"@, ".."@),
        !component_lt(a, "/"@) && !component_lt(a, "."@) && !component_lt(a, ".."@),
{
    reveal_strlit("/");
    reveal_strlit(".");
    reveal_strlit("..");
    assert("/"@.len() == 1 && "."@.len() == 1 && ".."@.len() == 2);
    assert("/"@[0] == '/' && "."@[0] == '.');
}

} // verus!
