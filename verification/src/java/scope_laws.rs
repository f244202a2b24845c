//! What holds of the search for the declaration of a variable.

use vstd::prelude::*;

use crate::java::ast::{
    children_from, children_of, node_location, parent_of, shallower_before, NodeView,
};
use crate::java::scope::{
    declared_name, first_in, in_block, in_declaration, in_declarator, in_field, in_formal_parameter,
    in_identifier, in_instanceof, in_lambda, in_local_variable, in_parameters_of, in_resource,
    in_scope, initialized, inside, last_of_kind,
};
use crate::java::types::DeclarationView;
use crate::text_laws::characters_are_found_first;

verus! {

/// The children of a node are the nodes one level below it that follow it before any node that is
/// not below it.
pub proof fn children_follow_one_level_below(t: Seq<NodeView>, i: int, k: int)
    requires
        0 <= i < t.len(),
    ensures
        children_of(t, i).contains(k) <==> i < k < t.len() && t[k].depth == t[i].depth + 1
            && forall|j: int| i < j <= k ==> (#[trigger] t[j]).depth > t[i].depth,
{
    lemma_children(t, i, i + 1, k);
}

proof fn lemma_children(t: Seq<NodeView>, i: int, from: int, k: int)
    requires
        0 <= i < from <= t.len(),
    ensures
        children_from(t, i, from).contains(k) <==> from <= k < t.len() && t[k].depth == t[i].depth
            + 1 && forall|j: int| from <= j <= k ==> (#[trigger] t[j]).depth > t[i].depth,
        forall|a: int, b: int|
            0 <= a < b < children_from(t, i, from).len() ==> (#[trigger] children_from(
                t,
                i,
                from,
            )[a]) < (#[trigger] children_from(t, i, from)[b]),
        forall|a: int|
            0 <= a < children_from(t, i, from).len() ==> (#[trigger] children_from(t, i, from)[a])
                >= from,
    decreases t.len() - from,
{
    broadcast use vstd::seq_lib::lemma_seq_concat_contains_all_elements;

    if from < t.len() && t[from].depth > t[i].depth {
        lemma_children(t, i, from + 1, k);
        assert(seq![from].contains(k) == (k == from)) by {
            assert(seq![from][0] == from);
        }
    } else if from < t.len() {
        if from <= k {
            assert(t[from].depth <= t[i].depth);
        }
    }
}

/// Children stand in the order of the source.
pub proof fn children_stand_in_order(t: Seq<NodeView>, i: int, a: int, b: int)
    requires
        0 <= i < t.len(),
        0 <= a < b < children_of(t, i).len(),
    ensures
        children_of(t, i)[a] < children_of(t, i)[b],
{
    lemma_children(t, i, i + 1, 0);
}

/// The parent of a node is the last node before it that is less deep.
pub proof fn parents_are_the_last_less_deep(t: Seq<NodeView>, i: int, p: int)
    requires
        0 <= i < t.len(),
        -1 <= p < i,
        p >= 0 ==> t[p].depth < t[i].depth,
        forall|j: int| p < j < i ==> (#[trigger] t[j]).depth >= t[i].depth,
    ensures
        p >= 0 ==> parent_of(t, i) == Some(p),
        p < 0 ==> parent_of(t, i) is None,
{
    lemma_shallower(t, t[i].depth as int, i, p);
}

proof fn lemma_shallower(t: Seq<NodeView>, depth: int, k: int, p: int)
    requires
        0 <= k <= t.len(),
        -1 <= p < k || p == -1,
        p >= 0 ==> t[p].depth < depth,
        forall|j: int| p < j < k ==> (#[trigger] t[j]).depth >= depth,
    ensures
        p >= 0 ==> shallower_before(t, depth, k) == Some(p),
        p < 0 ==> shallower_before(t, depth, k) is None,
    decreases k,
{
    if k > 0 && p < k - 1 {
        assert(t[k - 1].depth >= depth);
        lemma_shallower(t, depth, k - 1, p);
    }
}

/// Of several nodes the first that declares the name counts.
pub proof fn first_declaration_counts(
    ks: Seq<int>,
    f: spec_fn(int) -> Option<DeclarationView>,
    i: int,
)
    requires
        0 <= i <= ks.len(),
        forall|j: int| 0 <= j < i ==> f(#[trigger] ks[j]) is None,
        i < ks.len() ==> f(ks[i]) is Some,
    ensures
        i < ks.len() ==> first_in(ks, f) == f(ks[i]),
        i == ks.len() ==> first_in(ks, f) is None,
    decreases ks.len(),
{
    if i > 0 {
        let t = ks.subrange(1, ks.len() as int);
        assert(f(ks[0]) is None);
        assert forall|j: int| 0 <= j < i - 1 implies f(#[trigger] t[j]) is None by {
            assert(t[j] == ks[j + 1]);
        }
        first_declaration_counts(t, f, i - 1);
    }
}

proof fn lemma_only_one(ks: Seq<int>, f: spec_fn(int) -> Option<DeclarationView>, q: int)
    requires
        ks.contains(q),
        f(q) is Some,
        forall|k: int| #[trigger] ks.contains(k) && k != q ==> f(k) is None,
    ensures
        first_in(ks, f) == f(q),
    decreases ks.len(),
{
    if ks[0] != q {
        let t = ks.subrange(1, ks.len() as int);
        assert(ks.contains(ks[0]));
        let i = choose|i: int| 0 <= i < ks.len() && ks[i] == q;
        assert(t[i - 1] == q);
        assert forall|k: int| #[trigger] t.contains(k) && k != q implies f(k) is None by {
            let j = choose|j: int| 0 <= j < t.len() && t[j] == k;
            assert(ks[j + 1] == k);
            assert(ks.contains(k));
        }
        lemma_only_one(t, f, q);
    }
}

/// The type of a declaration: an inferred one is not known, a plain one stands without its type
/// arguments, and one with its package as it is written.
pub proof fn declared_types_are_named(name: Seq<char>, arguments: Seq<char>)
    requires
        !name.contains('<'),
        name != "var"@ || arguments.len() > 0,
    ensures
        declared_name("var"@) is None,
        !name.contains('.') && name != "var"@ ==> declared_name(name) == Some(name),
        !name.contains('.') ==> declared_name(name + seq!['<'] + arguments) == Some(name),
        name.contains('.') ==> declared_name(name) == Some(name) && declared_name(
            name + seq!['<'] + arguments,
        ) == Some(name + seq!['<'] + arguments),
{
    reveal_strlit("var");
    let whole = name + seq!['<'] + arguments;
    characters_are_found_first(name, '<', arguments);
    assert(whole.subrange(0, name.len() as int) =~= name);
    assert(name.subrange(0, name.len() as int) =~= name);
    if whole == "var"@ {
        assert(whole[name.len() as int] == '<');
        assert("var"@[0] == 'v' && "var"@[1] == 'a' && "var"@[2] == 'r');
        assert("var"@.len() == 3);
    }
    if name.contains('.') {
        assert(name != "var"@) by {
            if name == "var"@ {
                let k = choose|k: int| 0 <= k < name.len() && name[k] == '.';
                assert("var"@[0] == 'v' && "var"@[1] == 'a' && "var"@[2] == 'r');
            }
        }
    }
}

/// A declared variable stands for what it is initialized with, and where it is not, for its name; its
/// type is the declared one.
pub proof fn variables_stand_for_their_initializers(
    t: Seq<NodeView>,
    type_text: Seq<char>,
    name_node: int,
    init: int,
    name: Seq<char>,
    path: Seq<char>,
)
    ensures
        initialized(t, type_text, name_node, init, name, path).declared_type == declared_name(
            type_text,
        ),
        initialized(t, type_text, name_node, init, name, path).expr == t[init].text,
        initialized(t, type_text, name_node, init, name, path).location == node_location(
            path,
            t[if t[init].text == name {
                name_node
            } else {
                init
            }],
        ),
{
}

/// Places are counted from one.
pub proof fn places_are_counted_from_one(path: Seq<char>, n: NodeView)
    requires
        n.start.0 < usize::MAX,
        n.start.1 < usize::MAX,
        n.end.0 < usize::MAX,
        n.end.1 < usize::MAX,
    ensures
        node_location(path, n).file_path == path,
        node_location(path, n).start_position.0 == n.start.0 + 1,
        node_location(path, n).start_position.1 == n.start.1 + 1,
        node_location(path, n).end_position.0 == n.end.0 + 1,
        node_location(path, n).end_position.1 == n.end.1 + 1,
{
}

spec fn declares(t: Seq<NodeView>, d: int, name: Seq<char>) -> bool {
    t[d].kind == "variable_declarator"@ && children_of(t, d).len() > 0 && t[children_of(
        t,
        d,
    )[0]].text == name
}

/// A local variable is declared by the declarator with its name, with the type before all declarators.
pub proof fn local_variables_are_declared(
    t: Seq<NodeView>,
    n: int,
    name: Seq<char>,
    path: Seq<char>,
    i: int,
)
    requires
        0 < i < children_of(t, n).len(),
        t[children_of(t, n)[i]].kind == "variable_declarator"@,
        children_of(t, children_of(t, n)[i]).len() > 0,
        t[children_of(t, children_of(t, n)[i])[0]].text == name,
        forall|j: int|
            0 < j < i ==> !(t[#[trigger] children_of(t, n)[j]].kind == "variable_declarator"@
                && children_of(t, children_of(t, n)[j]).len() > 0 && t[children_of(
                t,
                children_of(t, n)[j],
            )[0]].text == name),
    ensures
        in_local_variable(t, n, name, path) == Some(
            initialized(
                t,
                t[children_of(t, n)[0]].text,
                children_of(t, children_of(t, n)[i])[0],
                children_of(t, children_of(t, n)[i]).last(),
                name,
                path,
            ),
        ),
{
    lemma_declarators(t, n, 0, name, path, i);
}

proof fn lemma_declarators(
    t: Seq<NodeView>,
    n: int,
    at: int,
    name: Seq<char>,
    path: Seq<char>,
    i: int,
)
    requires
        0 <= at < i < children_of(t, n).len(),
        declares(t, children_of(t, n)[i], name),
        forall|j: int| at < j < i ==> !declares(t, #[trigger] children_of(t, n)[j], name),
    ensures
        in_declaration(t, n, at, name, path) == Some(
            initialized(
                t,
                t[children_of(t, n)[at]].text,
                children_of(t, children_of(t, n)[i])[0],
                children_of(t, children_of(t, n)[i]).last(),
                name,
                path,
            ),
        ),
{
    let ks = children_of(t, n);
    let rest = ks.subrange(at + 1, ks.len() as int);
    let f = in_declarator(t, t[ks[at]].text, name, path);
    assert forall|j: int| 0 <= j < i - at - 1 implies f(#[trigger] rest[j]) is None by {
        assert(rest[j] == ks[j + at + 1]);
        assert(!declares(t, ks[j + at + 1], name));
    }
    assert(rest[i - at - 1] == ks[i]);
    first_declaration_counts(rest, f, i - at - 1);
}

/// A field is declared by the declarator with its name, with the type behind the modifiers, if there
/// are any.
pub proof fn fields_are_declared(
    t: Seq<NodeView>,
    n: int,
    name: Seq<char>,
    path: Seq<char>,
    i: int,
    at: int,
)
    requires
        t[n].kind == "field_declaration"@,
        at == (if t[children_of(t, n)[0]].kind == "modifiers"@ {
            1int
        } else {
            0int
        }),
        at < i < children_of(t, n).len(),
        t[children_of(t, n)[i]].kind == "variable_declarator"@,
        children_of(t, children_of(t, n)[i]).len() > 0,
        t[children_of(t, children_of(t, n)[i])[0]].text == name,
        forall|j: int|
            at < j < i ==> !(t[#[trigger] children_of(t, n)[j]].kind == "variable_declarator"@
                && children_of(t, children_of(t, n)[j]).len() > 0 && t[children_of(
                t,
                children_of(t, n)[j],
            )[0]].text == name),
    ensures
        in_field(t, name, path)(n) == Some(
            initialized(
                t,
                t[children_of(t, n)[at]].text,
                children_of(t, children_of(t, n)[i])[0],
                children_of(t, children_of(t, n)[i]).last(),
                name,
                path,
            ),
        ),
{
    lemma_declarators(t, n, at, name, path, i);
}

/// In a block the first statement before the call that declares the variable counts.
pub proof fn blocks_declare_in_order(
    t: Seq<NodeView>,
    n: int,
    call_start: usize,
    name: Seq<char>,
    path: Seq<char>,
    i: int,
)
    requires
        t[n].kind == "block"@,
        0 <= i < children_of(t, n).len(),
        forall|j: int|
            0 <= j <= i ==> t[#[trigger] children_of(t, n)[j]].end_byte <= call_start,
        forall|j: int|
            0 <= j < i ==> t[#[trigger] children_of(t, n)[j]].kind
                != "local_variable_declaration"@ || in_local_variable(
                t,
                children_of(t, n)[j],
                name,
                path,
            ) is None,
        t[children_of(t, n)[i]].kind == "local_variable_declaration"@,
        in_local_variable(t, children_of(t, n)[i], name, path) is Some,
    ensures
        in_scope(t, n, call_start, name, path) == in_local_variable(
            t,
            children_of(t, n)[i],
            name,
            path,
        ),
{
    lemma_block(t, children_of(t, n), call_start, name, path, i);
}

proof fn lemma_block(
    t: Seq<NodeView>,
    ks: Seq<int>,
    call_start: usize,
    name: Seq<char>,
    path: Seq<char>,
    i: int,
)
    requires
        0 <= i < ks.len(),
        forall|j: int| 0 <= j <= i ==> t[#[trigger] ks[j]].end_byte <= call_start,
        forall|j: int|
            0 <= j < i ==> t[#[trigger] ks[j]].kind != "local_variable_declaration"@
                || in_local_variable(t, ks[j], name, path) is None,
        t[ks[i]].kind == "local_variable_declaration"@,
        in_local_variable(t, ks[i], name, path) is Some,
    ensures
        in_block(t, ks, call_start, name, path) == in_local_variable(t, ks[i], name, path),
    decreases ks.len(),
{
    assert(t[ks[0]].end_byte <= call_start);
    if i > 0 {
        let rest = ks.subrange(1, ks.len() as int);
        assert(t[ks[0]].kind != "local_variable_declaration"@ || in_local_variable(
            t,
            ks[0],
            name,
            path,
        ) is None);
        assert forall|j: int| 0 <= j <= i - 1 implies t[#[trigger] rest[j]].end_byte
            <= call_start by {
            assert(rest[j] == ks[j + 1]);
        }
        assert forall|j: int| 0 <= j < i - 1 implies t[#[trigger] rest[j]].kind
            != "local_variable_declaration"@ || in_local_variable(t, rest[j], name, path) is None by {
            assert(rest[j] == ks[j + 1]);
        }
        assert(rest[i - 1] == ks[i]);
        lemma_block(t, rest, call_start, name, path, i - 1);
    }
}

spec fn is_parameter(t: Seq<NodeView>, q: int, name: Seq<char>) -> bool {
    t[q].kind == "formal_parameter"@ && children_of(t, q).len() >= 2 && t[children_of(
        t,
        q,
    ).last()].text == name
}

/// A method or constructor declares its parameters, each with its type.
pub proof fn parameters_are_declared(
    t: Seq<NodeView>,
    n: int,
    call_start: usize,
    name: Seq<char>,
    path: Seq<char>,
    list: int,
    q: int,
)
    requires
        t[n].kind == "method_declaration"@ || t[n].kind == "constructor_declaration"@ || t[n].kind
            == "compact_constructor_declaration"@,
        children_of(t, n).contains(list),
        t[list].kind == "formal_parameters"@,
        forall|k: int| #[trigger]
            children_of(t, n).contains(k) && k != list ==> t[k].kind != "formal_parameters"@,
        children_of(t, list).contains(q),
        t[q].kind == "formal_parameter"@,
        children_of(t, q).len() >= 2,
        t[children_of(t, q).last()].text == name,
        forall|k: int| #[trigger]
            children_of(t, list).contains(k) && k != q ==> !(t[k].kind == "formal_parameter"@
                && children_of(t, k).len() >= 2 && t[children_of(t, k).last()].text == name),
    ensures
        in_scope(t, n, call_start, name, path) == Some(
            DeclarationView {
                expr: t[q].text,
                declared_type: declared_name(t[children_of(t, q)[0]].text),
                location: node_location(path, t[q]),
            },
        ),
{
    lemma_kinds();
    lemma_parameters(t, n, name, path, list, q);
}

proof fn lemma_parameters(
    t: Seq<NodeView>,
    n: int,
    name: Seq<char>,
    path: Seq<char>,
    list: int,
    q: int,
)
    requires
        children_of(t, n).contains(list),
        t[list].kind == "formal_parameters"@,
        forall|k: int| #[trigger]
            children_of(t, n).contains(k) && k != list ==> t[k].kind != "formal_parameters"@,
        children_of(t, list).contains(q),
        is_parameter(t, q, name),
        forall|k: int| #[trigger]
            children_of(t, list).contains(k) && k != q ==> !is_parameter(t, k, name),
    ensures
        in_parameters_of(t, n, name, path) == Some(
            DeclarationView {
                expr: t[q].text,
                declared_type: declared_name(t[children_of(t, q)[0]].text),
                location: node_location(path, t[q]),
            },
        ),
{
    let f = in_formal_parameter(t, name, path);
    assert forall|k: int| #[trigger] children_of(t, list).contains(k) && k != q implies f(
        k,
    ) is None by {
        assert(!is_parameter(t, k, name));
    }
    lemma_only_one(children_of(t, list), f, q);
    let g = inside(t, "formal_parameters"@, f);
    assert forall|k: int| #[trigger] children_of(t, n).contains(k) && k != list implies g(
        k,
    ) is None by {}
    lemma_only_one(children_of(t, n), g, list);
}

/// The kinds of scopes differ.
proof fn lemma_kinds()
    ensures
        "block"@.len() == 5,
        "lambda_expression"@.len() == 17,
        "method_declaration"@.len() == 18,
        "constructor_declaration"@.len() == 23,
        "compact_constructor_declaration"@.len() == 31,
        "try_with_resources_statement"@.len() == 28,
        "if_statement"@.len() == 12,
        "class_body"@.len() == 10,
        "inferred_parameters"@.len() == 19,
        "formal_parameters"@.len() == 17,
        "identifier"@.len() == 10,
{
    reveal_strlit("block");
    reveal_strlit("lambda_expression");
    reveal_strlit("method_declaration");
    reveal_strlit("constructor_declaration");
    reveal_strlit("compact_constructor_declaration");
    reveal_strlit("try_with_resources_statement");
    reveal_strlit("if_statement");
    reveal_strlit("class_body");
    reveal_strlit("inferred_parameters");
    reveal_strlit("formal_parameters");
    reveal_strlit("identifier");
}

/// A class declares its fields, wherever they stand in it.
pub proof fn classes_declare_their_fields(
    t: Seq<NodeView>,
    n: int,
    call_start: usize,
    name: Seq<char>,
    path: Seq<char>,
    i: int,
)
    requires
        t[n].kind == "class_body"@,
        0 <= i < children_of(t, n).len(),
        in_field(t, name, path)(children_of(t, n)[i]) is Some,
        forall|j: int|
            0 <= j < i ==> in_field(t, name, path)(#[trigger] children_of(t, n)[j]) is None,
    ensures
        in_scope(t, n, call_start, name, path) == in_field(t, name, path)(children_of(t, n)[i]),
{
    lemma_kinds();
    first_declaration_counts(children_of(t, n), in_field(t, name, path), i);
}

/// A record declares its components.
pub proof fn records_declare_their_components(
    t: Seq<NodeView>,
    n: int,
    record: int,
    call_start: usize,
    name: Seq<char>,
    path: Seq<char>,
    list: int,
    q: int,
)
    requires
        t[n].kind == "class_body"@,
        forall|j: int|
            0 <= j < children_of(t, n).len() ==> in_field(t, name, path)(
                #[trigger] children_of(t, n)[j],
            ) is None,
        parent_of(t, n) == Some(record),
        t[record].kind == "record_declaration"@,
        children_of(t, record).contains(list),
        t[list].kind == "formal_parameters"@,
        forall|k: int| #[trigger]
            children_of(t, record).contains(k) && k != list ==> t[k].kind != "formal_parameters"@,
        children_of(t, list).contains(q),
        t[q].kind == "formal_parameter"@,
        children_of(t, q).len() >= 2,
        t[children_of(t, q).last()].text == name,
        forall|k: int| #[trigger]
            children_of(t, list).contains(k) && k != q ==> !(t[k].kind == "formal_parameter"@
                && children_of(t, k).len() >= 2 && t[children_of(t, k).last()].text == name),
    ensures
        in_scope(t, n, call_start, name, path) == Some(
            DeclarationView {
                expr: t[q].text,
                declared_type: declared_name(t[children_of(t, q)[0]].text),
                location: node_location(path, t[q]),
            },
        ),
{
    lemma_kinds();
    first_declaration_counts(
        children_of(t, n),
        in_field(t, name, path),
        children_of(t, n).len() as int,
    );
    lemma_parameters(t, record, name, path, list, q);
}

/// A `try` statement declares its resources.
pub proof fn resources_are_declared(
    t: Seq<NodeView>,
    n: int,
    call_start: usize,
    name: Seq<char>,
    path: Seq<char>,
    list: int,
    q: int,
)
    requires
        t[n].kind == "try_with_resources_statement"@,
        children_of(t, n).contains(list),
        t[list].kind == "resource_specification"@,
        forall|k: int| #[trigger]
            children_of(t, n).contains(k) && k != list ==> t[k].kind != "resource_specification"@,
        children_of(t, list).contains(q),
        t[q].kind == "resource"@,
        children_of(t, q).len() >= 2,
        t[children_of(t, q)[1]].kind == "identifier"@,
        t[children_of(t, q)[1]].text == name,
        forall|k: int| #[trigger]
            children_of(t, list).contains(k) && k != q ==> !(t[k].kind == "resource"@
                && children_of(t, k).len() >= 2 && t[children_of(t, k)[1]].kind == "identifier"@
                && t[children_of(t, k)[1]].text == name),
    ensures
        in_scope(t, n, call_start, name, path) == Some(
            initialized(
                t,
                t[children_of(t, q)[0]].text,
                children_of(t, q)[1],
                children_of(t, q).last(),
                name,
                path,
            ),
        ),
{
    lemma_kinds();
    let f = in_resource(t, name, path);
    assert forall|k: int| #[trigger] children_of(t, list).contains(k) && k != q implies f(
        k,
    ) is None by {}
    lemma_only_one(children_of(t, list), f, q);
    let g = inside(t, "resource_specification"@, f);
    assert forall|k: int| #[trigger] children_of(t, n).contains(k) && k != list implies g(
        k,
    ) is None by {}
    lemma_only_one(children_of(t, n), g, list);
}

/// The condition of an `if` statement declares what it binds to a type.
pub proof fn bindings_are_declared(
    t: Seq<NodeView>,
    n: int,
    call_start: usize,
    name: Seq<char>,
    path: Seq<char>,
    list: int,
    q: int,
    class: int,
    binding: int,
)
    requires
        t[n].kind == "if_statement"@,
        children_of(t, n).contains(list),
        t[list].kind == "parenthesized_expression"@,
        forall|k: int| #[trigger]
            children_of(t, n).contains(k) && k != list ==> t[k].kind != "parenthesized_expression"@,
        children_of(t, list).contains(q),
        t[q].kind == "instanceof_expression"@,
        forall|k: int| #[trigger]
            children_of(t, list).contains(k) && k != q ==> t[k].kind != "instanceof_expression"@,
        0 <= class < children_of(t, q).len(),
        t[children_of(t, q)[class]].kind == "type_identifier"@,
        forall|j: int|
            class < j < children_of(t, q).len() ==> t[#[trigger] children_of(t, q)[j]].kind
                != "type_identifier"@,
        0 <= binding < children_of(t, q).len(),
        t[children_of(t, q)[binding]].kind == "identifier"@,
        t[children_of(t, q)[binding]].text == name,
        forall|j: int|
            binding < j < children_of(t, q).len() ==> t[#[trigger] children_of(t, q)[j]].kind
                != "identifier"@,
    ensures
        in_scope(t, n, call_start, name, path) == Some(
            DeclarationView {
                expr: t[children_of(t, q)[class]].text + " "@ + name,
                declared_type: Some(t[children_of(t, q)[class]].text),
                location: node_location(path, t[q]),
            },
        ),
{
    lemma_kinds();
    lemma_last_of_kind(t, children_of(t, q), "type_identifier"@, class);
    lemma_last_of_kind(t, children_of(t, q), "identifier"@, binding);
    let f = in_instanceof(t, name, path);
    assert forall|k: int| #[trigger] children_of(t, list).contains(k) && k != q implies f(
        k,
    ) is None by {}
    lemma_only_one(children_of(t, list), f, q);
    let g = inside(t, "parenthesized_expression"@, f);
    assert forall|k: int| #[trigger] children_of(t, n).contains(k) && k != list implies g(
        k,
    ) is None by {}
    lemma_only_one(children_of(t, n), g, list);
}

proof fn lemma_last_of_kind(t: Seq<NodeView>, ks: Seq<int>, kind: Seq<char>, i: int)
    requires
        0 <= i < ks.len(),
        t[ks[i]].kind == kind,
        forall|j: int| i < j < ks.len() ==> t[#[trigger] ks[j]].kind != kind,
    ensures
        last_of_kind(t, ks, kind) == Some(t[ks[i]].text),
    decreases ks.len(),
{
    if i < ks.len() - 1 {
        let s = ks.drop_last();
        assert(t[ks[ks.len() - 1]].kind != kind);
        assert forall|j: int| i < j < s.len() implies t[#[trigger] s[j]].kind != kind by {
            assert(s[j] == ks[j]);
        }
        lemma_last_of_kind(t, s, kind, i);
    }
}

/// A lambda declares its parameters: a single name, a list of names or a list with types. Names
/// without a type have none.
pub proof fn lambda_parameters_are_declared(
    t: Seq<NodeView>,
    n: int,
    call_start: usize,
    name: Seq<char>,
    path: Seq<char>,
    list: int,
    q: int,
)
    requires
        t[n].kind == "lambda_expression"@,
        children_of(t, n).contains(list),
        forall|k: int| #[trigger]
            children_of(t, n).contains(k) && k != list ==> t[k].kind != "inferred_parameters"@
                && t[k].kind != "formal_parameters"@ && !(t[k].kind == "identifier"@ && t[k].text
                == name),
    ensures
        t[list].kind == "identifier"@ && t[list].text == name ==> in_scope(
            t,
            n,
            call_start,
            name,
            path,
        ) == Some(
            DeclarationView {
                expr: t[list].text,
                declared_type: None,
                location: node_location(path, t[list]),
            },
        ),
        t[list].kind == "inferred_parameters"@ && children_of(t, list).contains(q) && t[q].kind
            == "identifier"@ && t[q].text == name && (forall|k: int| #[trigger]
            children_of(t, list).contains(k) && k != q ==> !(t[k].kind == "identifier"@ && t[k].text
                == name)) ==> in_scope(t, n, call_start, name, path) == Some(
            DeclarationView {
                expr: t[q].text,
                declared_type: None,
                location: node_location(path, t[q]),
            },
        ),
        t[list].kind == "formal_parameters"@ && children_of(t, list).contains(q) && t[q].kind
            == "formal_parameter"@ && children_of(t, q).len() >= 2 && t[children_of(
            t,
            q,
        ).last()].text == name && (forall|k: int| #[trigger]
            children_of(t, list).contains(k) && k != q ==> !(t[k].kind == "formal_parameter"@
                && children_of(t, k).len() >= 2 && t[children_of(t, k).last()].text == name))
            ==> in_scope(t, n, call_start, name, path) == Some(
            DeclarationView {
                expr: t[q].text,
                declared_type: declared_name(t[children_of(t, q)[0]].text),
                location: node_location(path, t[q]),
            },
        ),
{
    lemma_kinds();
    let f = in_lambda(t, name, path);
    assert forall|k: int| #[trigger] children_of(t, n).contains(k) && k != list implies f(
        k,
    ) is None by {}
    assert("identifier"@.len() != "inferred_parameters"@.len());
    if t[list].kind == "identifier"@ && t[list].text == name {
        lemma_only_one(children_of(t, n), f, list);
    }
    if t[list].kind == "inferred_parameters"@ && children_of(t, list).contains(q) && t[q].kind
        == "identifier"@ && t[q].text == name && (forall|k: int| #[trigger]
        children_of(t, list).contains(k) && k != q ==> !(t[k].kind == "identifier"@ && t[k].text
            == name)) {
        let g = in_identifier(t, name, path);
        assert forall|k: int| #[trigger] children_of(t, list).contains(k) && k != q implies g(
            k,
        ) is None by {}
        lemma_only_one(children_of(t, list), g, q);
        lemma_only_one(children_of(t, n), f, list);
    }
    if t[list].kind == "formal_parameters"@ && children_of(t, list).contains(q) && is_parameter(
        t,
        q,
        name,
    ) && (forall|k: int| #[trigger]
        children_of(t, list).contains(k) && k != q ==> !is_parameter(t, k, name)) {
        let g = in_formal_parameter(t, name, path);
        assert forall|k: int| #[trigger] children_of(t, list).contains(k) && k != q implies g(
            k,
        ) is None by {
            assert(!is_parameter(t, k, name));
        }
        lemma_only_one(children_of(t, list), g, q);
        lemma_only_one(children_of(t, n), f, list);
    }
}

/// Other nodes than these eight kinds declare nothing.
pub proof fn other_nodes_declare_nothing(
    t: Seq<NodeView>,
    n: int,
    call_start: usize,
    name: Seq<char>,
    path: Seq<char>,
)
    requires
        t[n].kind != "block"@,
        t[n].kind != "lambda_expression"@,
        t[n].kind != "method_declaration"@,
        t[n].kind != "constructor_declaration"@,
        t[n].kind != "compact_constructor_declaration"@,
        t[n].kind != "try_with_resources_statement"@,
        t[n].kind != "if_statement"@,
        t[n].kind != "class_body"@,
    ensures
        in_scope(t, n, call_start, name, path) is None,
{
}

/// A block whose statements do not declare the variable declares nothing.
pub proof fn blocks_declare_nothing_else(
    t: Seq<NodeView>,
    n: int,
    call_start: usize,
    name: Seq<char>,
    path: Seq<char>,
)
    requires
        t[n].kind == "block"@,
        forall|j: int|
            0 <= j < children_of(t, n).len() ==> t[#[trigger] children_of(t, n)[j]].kind
                != "local_variable_declaration"@ || in_local_variable(
                t,
                children_of(t, n)[j],
                name,
                path,
            ) is None,
    ensures
        in_scope(t, n, call_start, name, path) is None,
{
    lemma_empty_block(t, children_of(t, n), call_start, name, path);
}

proof fn lemma_empty_block(
    t: Seq<NodeView>,
    ks: Seq<int>,
    call_start: usize,
    name: Seq<char>,
    path: Seq<char>,
)
    requires
        forall|j: int|
            0 <= j < ks.len() ==> t[#[trigger] ks[j]].kind != "local_variable_declaration"@
                || in_local_variable(t, ks[j], name, path) is None,
    ensures
        in_block(t, ks, call_start, name, path) is None,
    decreases ks.len(),
{
    if ks.len() > 0 {
        let rest = ks.subrange(1, ks.len() as int);
        assert(t[ks[0]].kind != "local_variable_declaration"@ || in_local_variable(
            t,
            ks[0],
            name,
            path,
        ) is None);
        assert forall|j: int| 0 <= j < rest.len() implies t[#[trigger] rest[j]].kind
            != "local_variable_declaration"@ || in_local_variable(t, rest[j], name, path) is None by {
            assert(rest[j] == ks[j + 1]);
        }
        lemma_empty_block(t, rest, call_start, name, path);
    }
}

/// A declaration without a declarator of the name does not declare it.
pub proof fn other_declarations_declare_nothing(
    t: Seq<NodeView>,
    n: int,
    name: Seq<char>,
    path: Seq<char>,
)
    requires
        forall|j: int|
            0 <= j < children_of(t, n).len() ==> !(t[#[trigger] children_of(t, n)[j]].kind
                == "variable_declarator"@ && children_of(t, children_of(t, n)[j]).len() > 0
                && t[children_of(t, children_of(t, n)[j])[0]].text == name),
    ensures
        in_local_variable(t, n, name, path) is None,
        in_field(t, name, path)(n) is None,
{
    lemma_no_declarator(t, n, 0, name, path);
    lemma_no_declarator(t, n, 1, name, path);
}

proof fn lemma_no_declarator(t: Seq<NodeView>, n: int, at: int, name: Seq<char>, path: Seq<char>)
    requires
        at >= 0,
        forall|j: int|
            0 <= j < children_of(t, n).len() ==> !declares(t, #[trigger] children_of(t, n)[j], name),
    ensures
        in_declaration(t, n, at, name, path) is None,
{
    let ks = children_of(t, n);
    if at < ks.len() {
        let rest = ks.subrange(at + 1, ks.len() as int);
        let f = in_declarator(t, t[ks[at]].text, name, path);
        assert forall|j: int| 0 <= j < rest.len() implies f(#[trigger] rest[j]) is None by {
            assert(rest[j] == ks[j + at + 1]);
            assert(!declares(t, ks[j + at + 1], name));
        }
        first_declaration_counts(rest, f, rest.len() as int);
    }
}

/// The search for a receiver starts at its call.
pub proof fn receivers_are_searched_from_their_call(
    t: Seq<NodeView>,
    n: int,
    p: int,
    name: Seq<char>,
    path: Seq<char>,
)
    requires
        0 <= n < t.len(),
        parent_of(t, n) == Some(p),
        in_scope(t, p, t[n].start_byte, name, path) is Some,
    ensures
        crate::java::scope::receiver_declaration(t, n, name, path) == in_scope(
            t,
            p,
            t[n].start_byte,
            name,
            path,
        ),
{
    crate::java::scope::innermost_scope_wins(t, n, p, t[n].start_byte, name, path);
}

} // verus!
