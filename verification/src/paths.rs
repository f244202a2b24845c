//! Paths whose components are separated by slashes.

use vstd::prelude::*;

use crate::text::{
    chars_of, opt_text, rfind_before, rfind_char, same, split, split_on, text_between, text_lt,
    texts, less,
};

verus! {

/// The components among the pieces of a path: empty pieces are none, and a dot is one only where
/// the path starts with it.
pub open spec fn pieces_kept(ps: Seq<Seq<char>>) -> Seq<Seq<char>>
    decreases ps.len(),
{
    if ps.len() == 0 {
        Seq::empty()
    } else if ps.last().len() == 0 || (ps.last() == "."@ && ps.len() > 1) {
        pieces_kept(ps.drop_last())
    } else {
        pieces_kept(ps.drop_last()).push(ps.last())
    }
}

/// The components of a path. That of the root is a slash.
pub open spec fn path_components(s: Seq<char>) -> Seq<Seq<char>> {
    (if s.len() > 0 && s[0] == '/' {
        seq!["/"@]
    } else {
        Seq::<Seq<char>>::empty()
    }) + pieces_kept(split_on(s, '/'))
}

/// Whether the path ends with all the components of `suffix`.
pub open spec fn path_has_suffix(path: Seq<char>, suffix: Seq<char>) -> bool {
    let a = path_components(path);
    let b = path_components(suffix);
    b.len() <= a.len() && a.subrange(a.len() - b.len(), a.len() as int) == b
}

/// Whether the path starts with all the components of `prefix`.
pub open spec fn path_has_prefix(path: Seq<char>, prefix: Seq<char>) -> bool {
    let a = path_components(path);
    let b = path_components(prefix);
    b.len() <= a.len() && a.subrange(0, b.len() as int) == b
}

/// Whether a component names a file or a directory.
pub open spec fn is_name(c: Seq<char>) -> bool {
    c != "/"@ && c != "."@ && c != ".."@
}

/// The last of the components, if it is a name.
pub open spec fn last_name(cs: Seq<Seq<char>>) -> Option<Seq<char>> {
    if cs.len() > 0 && is_name(cs.last()) {
        Some(cs.last())
    } else {
        None
    }
}

/// The name of the file or directory that a path leads to.
pub open spec fn path_name(s: Seq<char>) -> Option<Seq<char>> {
    last_name(path_components(s))
}

/// The name of the directory that holds what the path leads to.
pub open spec fn path_parent_name(s: Seq<char>) -> Option<Seq<char>> {
    let cs = path_components(s);
    if cs.len() > 0 && cs.last() != "/"@ {
        last_name(cs.drop_last())
    } else {
        None
    }
}

/// What stands behind the last dot of a name that does not start with it.
pub open spec fn name_extension(name: Seq<char>) -> Option<Seq<char>> {
    let dot = rfind_before(name, '.', name.len() as int);
    if dot > 0 {
        Some(name.subrange(dot + 1, name.len() as int))
    } else {
        None
    }
}

/// The extension of the file that a path leads to.
pub open spec fn path_extension(s: Seq<char>) -> Option<Seq<char>> {
    match path_name(s) {
        Some(name) => name_extension(name),
        None => None,
    }
}

/// What kind a component is of: the root, a dot, two dots or a name, in the order of the kinds.
pub open spec fn component_kind(c: Seq<char>) -> int {
    if c == "/"@ {
        0
    } else if c == "."@ {
        1
    } else if c == ".."@ {
        2
    } else {
        3
    }
}

/// The order of components: by their kinds, and names by their texts.
pub open spec fn component_lt(a: Seq<char>, b: Seq<char>) -> bool {
    component_kind(a) < component_kind(b) || (component_kind(a) == component_kind(b) && text_lt(
        a,
        b,
    ))
}

/// The order of lists of components: by the first component in which they differ.
pub open spec fn components_lt(a: Seq<Seq<char>>, b: Seq<Seq<char>>) -> bool
    decreases a.len(),
{
    if b.len() == 0 {
        false
    } else if a.len() == 0 {
        true
    } else if a[0] != b[0] {
        component_lt(a[0], b[0])
    } else {
        components_lt(a.subrange(1, a.len() as int), b.subrange(1, b.len() as int))
    }
}

/// The components of a path.
pub fn components(s: &str) -> (r: Vec<String>)
    ensures
        texts(r@) == path_components(s@),
{
    let ps = split(s, '/');
    let ghost p = texts(ps@);
    let mut out: Vec<String> = Vec::new();
    let chars = chars_of(s);
    let ghost root = if s@.len() > 0 && s@[0] == '/' {
        seq!["/"@]
    } else {
        Seq::<Seq<char>>::empty()
    };
    if chars.len() > 0 && chars[0] == '/' {
        out.push("/".to_string());
    }
    assert(texts(out@) =~= root);
    let mut i: usize = 0;
    assert(p.subrange(0, 0).len() == 0);
    assert(root + pieces_kept(p.subrange(0, 0)) =~= root);
    while i < ps.len()
        invariant
            i <= ps@.len(),
            p == texts(ps@),
            texts(out@) == root + pieces_kept(p.subrange(0, i as int)),
        decreases ps@.len() - i,
    {
        let ghost u = p.subrange(0, i + 1);
        let ghost before = texts(out@);
        assert(u.drop_last() =~= p.subrange(0, i as int));
        assert(u.last() == ps@[i as int]@);
        let piece = ps[i].as_str();
        if !(piece.is_empty() || (same(piece, ".") && i > 0)) {
            out.push(piece.to_string());
            assert(texts(out@) =~= before.push(piece@));
            assert(before.push(piece@) =~= root + pieces_kept(u));
        }
        i = i + 1;
    }
    assert(p.subrange(0, p.len() as int) =~= p);
    out
}

fn same_components(a: &Vec<String>, from: usize, b: &Vec<String>) -> (r: bool)
    requires
        from + b.len() <= a.len(),
    ensures
        r == (texts(a@).subrange(from as int, from + b@.len()) == texts(b@)),
{
    let ghost x = texts(a@).subrange(from as int, from + b@.len());
    let ghost y = texts(b@);
    let mut i: usize = 0;
    while i < b.len()
        invariant
            i <= b@.len(),
            from + b.len() <= a.len(),
            x == texts(a@).subrange(from as int, from + b@.len()),
            y == texts(b@),
            forall|j: int| 0 <= j < i ==> x[j] == y[j],
        decreases b@.len() - i,
    {
        assert(x[i as int] == a@[from + i]@);
        assert(y[i as int] == b@[i as int]@);
        if !same(a[from + i].as_str(), b[i].as_str()) {
            return false;
        }
        i = i + 1;
    }
    assert(x =~= y);
    true
}

/// Whether the two paths have the same components.
pub fn same_path(a: &str, b: &str) -> (r: bool)
    ensures
        r == (path_components(a@) == path_components(b@)),
{
    let v = components(a);
    let w = components(b);
    assert(texts(v@).len() == v@.len() && texts(w@).len() == w@.len());
    if v.len() != w.len() {
        return false;
    }
    assert(texts(v@).subrange(0, v@.len() as int) =~= texts(v@));
    same_components(&v, 0, &w)
}

/// Whether one of the paths has the components of `path`.
pub open spec fn has_path(paths: Seq<Seq<char>>, path: Seq<char>) -> bool {
    exists|i: int|
        0 <= i < paths.len() && path_components(#[trigger] paths[i]) == path_components(path)
}

/// Whether one of the paths has the components of `path`.
pub fn contains_path(paths: &Vec<String>, path: &str) -> (r: bool)
    ensures
        r == has_path(texts(paths@), path@),
{
    let ghost s = texts(paths@);
    let mut i: usize = 0;
    while i < paths.len()
        invariant
            i <= paths@.len(),
            s == texts(paths@),
            forall|j: int|
                0 <= j < i ==> path_components(#[trigger] s[j]) != path_components(path@),
        decreases paths@.len() - i,
    {
        assert(s[i as int] == paths@[i as int]@);
        if same_path(paths[i].as_str(), path) {
            return true;
        }
        i = i + 1;
    }
    false
}

/// Whether the path ends with all the components of `suffix`.
pub fn ends_with_path(path: &str, suffix: &str) -> (r: bool)
    ensures
        r == path_has_suffix(path@, suffix@),
{
    let a = components(path);
    let b = components(suffix);
    assert(texts(a@).len() == a@.len() && texts(b@).len() == b@.len());
    if b.len() > a.len() {
        return false;
    }
    same_components(&a, a.len() - b.len(), &b)
}

/// Whether the path starts with all the components of `prefix`.
pub fn starts_with_path(path: &str, prefix: &str) -> (r: bool)
    ensures
        r == path_has_prefix(path@, prefix@),
{
    let a = components(path);
    let b = components(prefix);
    assert(texts(a@).len() == a@.len() && texts(b@).len() == b@.len());
    if b.len() > a.len() {
        return false;
    }
    same_components(&a, 0, &b)
}

fn name_at(cs: &Vec<String>, n: usize) -> (r: Option<String>)
    requires
        n <= cs@.len(),
    ensures
        opt_text(r) == last_name(texts(cs@).subrange(0, n as int)),
{
    if n == 0 {
        return None;
    }
    assert(texts(cs@).subrange(0, n as int).last() == cs@[n - 1]@);
    let c = cs[n - 1].as_str();
    if same(c, "/") || same(c, ".") || same(c, "..") {
        None
    } else {
        Some(c.to_string())
    }
}

/// The name of the file or directory that a path leads to.
pub fn file_name(path: &str) -> (r: Option<String>)
    ensures
        opt_text(r) == path_name(path@),
{
    let cs = components(path);
    assert(texts(cs@).subrange(0, cs@.len() as int) =~= texts(cs@));
    name_at(&cs, cs.len())
}

/// The name of the directory that holds what the path leads to.
pub fn parent_name(path: &str) -> (r: Option<String>)
    ensures
        opt_text(r) == path_parent_name(path@),
{
    let cs = components(path);
    let ghost t = texts(cs@);
    if cs.len() == 0 || same(cs[cs.len() - 1].as_str(), "/") {
        assert(cs@.len() > 0 ==> t.last() == cs@.last()@);
        return None;
    }
    assert(t.last() == cs@.last()@);
    assert(t.drop_last() =~= t.subrange(0, cs@.len() - 1));
    name_at(&cs, cs.len() - 1)
}

/// The extension of the file that a path leads to.
pub fn extension(path: &str) -> (r: Option<String>)
    ensures
        opt_text(r) == path_extension(path@),
{
    match file_name(path) {
        Some(name) => {
            let v = chars_of(name.as_str());
            match rfind_char(&v, '.') {
                Some(dot) => if dot > 0 {
                    Some(text_between(&v, dot + 1, v.len()))
                } else {
                    None
                },
                None => None,
            }
        },
        None => None,
    }
}

fn kind_of(c: &str) -> (r: u8)
    ensures
        r == component_kind(c@),
{
    if same(c, "/") {
        0
    } else if same(c, ".") {
        1
    } else if same(c, "..") {
        2
    } else {
        3
    }
}

fn component_less(a: &str, b: &str) -> (r: bool)
    ensures
        r == component_lt(a@, b@),
{
    let m: u8 = kind_of(a);
    let n: u8 = kind_of(b);
    m < n || (m == n && less(a, b))
}

/// Whether the path `a` comes before the path `b`.
pub fn path_less(a: &str, b: &str) -> (r: bool)
    ensures
        r == components_lt(path_components(a@), path_components(b@)),
{
    let v = components(a);
    let w = components(b);
    let ghost s = texts(v@);
    let ghost t = texts(w@);
    let mut i: usize = 0;
    assert(s.subrange(0, s.len() as int) =~= s);
    assert(t.subrange(0, t.len() as int) =~= t);
    while i < v.len() && i < w.len()
        invariant
            s == texts(v@),
            t == texts(w@),
            s == path_components(a@),
            t == path_components(b@),
            i <= v@.len(),
            i <= w@.len(),
            components_lt(s, t) == components_lt(
                s.subrange(i as int, s.len() as int),
                t.subrange(i as int, t.len() as int),
            ),
        decreases v@.len() - i,
    {
        let ghost x = s.subrange(i as int, s.len() as int);
        let ghost y = t.subrange(i as int, t.len() as int);
        assert(x[0] == v@[i as int]@ && y[0] == w@[i as int]@);
        assert(x.subrange(1, x.len() as int) =~= s.subrange(i + 1, s.len() as int));
        assert(y.subrange(1, y.len() as int) =~= t.subrange(i + 1, t.len() as int));
        if !same(v[i].as_str(), w[i].as_str()) {
            return component_less(v[i].as_str(), w[i].as_str());
        }
        i = i + 1;
    }
    i < w.len()
}

/// Every path ends with itself.
pub proof fn paths_end_with_themselves(p: Seq<char>)
    ensures
        path_has_suffix(p, p),
{
    let a = path_components(p);
    assert(a.subrange(0, a.len() as int) =~= a);
}

} // verus!
