//! Where the receiver variable of a call is declared.
//!
//! The search walks from the call outward through the nodes that enclose it. The innermost scope
//! that declares the name wins; the walk ends at the body of the enclosing class or record.

use vstd::prelude::*;

use crate::java::ast::{
    children, children_of, location_of, node_location, parent, parent_of, positions_fit, tree,
    AstNode, NodeView,
};
use crate::java::types::{opt_declaration, DeclarationView, ReceiverDeclaration};
use crate::order::as_ints;
use crate::text::{
    chars_of, concat, contains_char, find_char, find_from, opt_text, same, text_between,
};

verus! {

pub const IDENTIFIER: &'static str = "identifier";

pub const ARGUMENT_LIST: &'static str = "argument_list";

pub const LOCAL_VARIABLE_DECLARATION: &'static str = "local_variable_declaration";

pub const VARIABLE_DECLARATOR: &'static str = "variable_declarator";

pub const BLOCK: &'static str = "block";

pub const METHOD_DECLARATION: &'static str = "method_declaration";

pub const CONSTRUCTOR_DECLARATION: &'static str = "constructor_declaration";

pub const FORMAL_PARAMETERS: &'static str = "formal_parameters";

pub const FORMAL_PARAMETER: &'static str = "formal_parameter";

pub const CLASS_BODY: &'static str = "class_body";

pub const FIELD_DECLARATION: &'static str = "field_declaration";

pub const LAMBDA_EXPRESSION: &'static str = "lambda_expression";

/// The parameter list `(x, y)` of a lambda without types.
pub const INFERRED_PARAMETERS: &'static str = "inferred_parameters";

pub const MODIFIERS: &'static str = "modifiers";

pub const TRY_WITH_RESOURCES_STATEMENT: &'static str = "try_with_resources_statement";

pub const RESOURCE_SPECIFICATION: &'static str = "resource_specification";

pub const RESOURCE: &'static str = "resource";

pub const RECORD_DECLARATION: &'static str = "record_declaration";

/// A constructor of a record without a parameter list of its own.
pub const COMPACT_CONSTRUCTOR_DECLARATION: &'static str = "compact_constructor_declaration";

pub const IF_STATEMENT: &'static str = "if_statement";

pub const PARENTHESIZED_EXPRESSION: &'static str = "parenthesized_expression";

pub const INSTANCEOF_EXPRESSION: &'static str = "instanceof_expression";

pub const TYPE_IDENTIFIER: &'static str = "type_identifier";

pub const LEFT_PAREN: &'static str = "(";

pub const RIGHT_PAREN: &'static str = ")";

pub const COMMA: &'static str = ",";

/// The first declaration that `f` finds at one of the nodes `ks`.
pub open spec fn first_in(
    ks: Seq<int>,
    f: spec_fn(int) -> Option<DeclarationView>,
) -> Option<DeclarationView>
    decreases ks.len(),
{
    if ks.len() == 0 {
        None
    } else {
        match f(ks[0]) {
            Some(d) => Some(d),
            None => first_in(ks.subrange(1, ks.len() as int), f),
        }
    }
}

/// The name of a declared type. It is `None` for `var`. A simple name loses its type arguments;
/// a qualified name keeps them.
pub open spec fn declared_name(type_text: Seq<char>) -> Option<Seq<char>> {
    let bracket = find_from(type_text, '<', 0);
    if type_text == "var"@ {
        None
    } else if type_text.subrange(0, bracket).contains('.') {
        Some(type_text)
    } else {
        Some(type_text.subrange(0, bracket))
    }
}

/// A node that declares a name of the given type, with the node `init` as its last child.
pub open spec fn initialized(
    t: Seq<NodeView>,
    type_text: Seq<char>,
    name_node: int,
    init: int,
    name: Seq<char>,
    path: Seq<char>,
) -> DeclarationView {
    if t[init].text == name {
        DeclarationView {
            expr: name,
            declared_type: declared_name(type_text),
            location: node_location(path, t[name_node]),
        }
    } else {
        DeclarationView {
            expr: t[init].text,
            declared_type: declared_name(type_text),
            location: node_location(path, t[init]),
        }
    }
}

/// The declarator `d` of a variable of the given type, if it declares `name`.
pub open spec fn in_declarator(
    t: Seq<NodeView>,
    type_text: Seq<char>,
    name: Seq<char>,
    path: Seq<char>,
) -> spec_fn(int) -> Option<DeclarationView> {
    |d: int|
        {
            let ks = children_of(t, d);
            if t[d].kind == VARIABLE_DECLARATOR@ && ks.len() > 0 && t[ks[0]].text == name {
                Some(initialized(t, type_text, ks[0], ks.last(), name, path))
            } else {
                None
            }
        }
}

/// The declarators behind the type, which is the child number `at` of the declaration `n`.
pub open spec fn in_declaration(
    t: Seq<NodeView>,
    n: int,
    at: int,
    name: Seq<char>,
    path: Seq<char>,
) -> Option<DeclarationView> {
    let ks = children_of(t, n);
    if ks.len() <= at {
        None
    } else {
        first_in(
            ks.subrange(at + 1, ks.len() as int),
            in_declarator(t, t[ks[at]].text, name, path),
        )
    }
}

/// The local variable declaration `n`, if it declares `name`.
pub open spec fn in_local_variable(
    t: Seq<NodeView>,
    n: int,
    name: Seq<char>,
    path: Seq<char>,
) -> Option<DeclarationView> {
    in_declaration(t, n, 0, name, path)
}

/// The field declaration `n`, if it declares `name`. Modifiers may stand before its type.
pub open spec fn in_field(t: Seq<NodeView>, name: Seq<char>, path: Seq<char>) -> spec_fn(
    int,
) -> Option<DeclarationView> {
    |n: int|
        {
            let ks = children_of(t, n);
            if t[n].kind != FIELD_DECLARATION@ {
                None
            } else if ks.len() > 0 && t[ks[0]].kind == MODIFIERS@ {
                in_declaration(t, n, 1, name, path)
            } else {
                in_declaration(t, n, 0, name, path)
            }
        }
}

/// The resource `n` of a `try`, if it declares `name`.
pub open spec fn in_resource(t: Seq<NodeView>, name: Seq<char>, path: Seq<char>) -> spec_fn(
    int,
) -> Option<DeclarationView> {
    |n: int|
        {
            let ks = children_of(t, n);
            if t[n].kind == RESOURCE@ && ks.len() >= 2 && t[ks[1]].kind == IDENTIFIER@
                && t[ks[1]].text == name {
                Some(initialized(t, t[ks[0]].text, ks[1], ks.last(), name, path))
            } else {
                None
            }
        }
}

/// The formal parameter `n`, if its name is `name`.
pub open spec fn in_formal_parameter(t: Seq<NodeView>, name: Seq<char>, path: Seq<char>) -> spec_fn(
    int,
) -> Option<DeclarationView> {
    |n: int|
        {
            let ks = children_of(t, n);
            if t[n].kind == FORMAL_PARAMETER@ && ks.len() >= 2 && t[ks.last()].text == name {
                Some(
                    DeclarationView {
                        expr: t[n].text,
                        declared_type: declared_name(t[ks[0]].text),
                        location: node_location(path, t[n]),
                    },
                )
            } else {
                None
            }
        }
}

/// The text of the last of the nodes `ks` that is of the given kind.
pub open spec fn last_of_kind(t: Seq<NodeView>, ks: Seq<int>, kind: Seq<char>) -> Option<Seq<char>>
    decreases ks.len(),
{
    if ks.len() == 0 {
        None
    } else if t[ks.last()].kind == kind {
        Some(t[ks.last()].text)
    } else {
        last_of_kind(t, ks.drop_last(), kind)
    }
}

/// The `instanceof` expression `n`, if its pattern binds `name`.
pub open spec fn in_instanceof(t: Seq<NodeView>, name: Seq<char>, path: Seq<char>) -> spec_fn(
    int,
) -> Option<DeclarationView> {
    |n: int|
        {
            let ks = children_of(t, n);
            match (last_of_kind(t, ks, TYPE_IDENTIFIER@), last_of_kind(t, ks, IDENTIFIER@)) {
                (Some(type_text), Some(binding)) => if t[n].kind == INSTANCEOF_EXPRESSION@
                    && binding == name {
                    Some(
                        DeclarationView {
                            expr: type_text + " "@ + binding,
                            declared_type: Some(type_text),
                            location: node_location(path, t[n]),
                        },
                    )
                } else {
                    None
                },
                _ => None,
            }
        }
}

/// A name without a type, such as the parameter of a lambda.
pub open spec fn untyped(t: Seq<NodeView>, n: int, path: Seq<char>) -> DeclarationView {
    DeclarationView {
        expr: t[n].text,
        declared_type: None,
        location: node_location(path, t[n]),
    }
}

/// The identifier `n`, if it is `name`.
pub open spec fn in_identifier(t: Seq<NodeView>, name: Seq<char>, path: Seq<char>) -> spec_fn(
    int,
) -> Option<DeclarationView> {
    |n: int|
        if t[n].kind == IDENTIFIER@ && t[n].text == name {
            Some(untyped(t, n, path))
        } else {
            None
        }
}

/// The children of `n`, if it is of the given kind, of which the first that `f` accepts counts.
pub open spec fn inside(
    t: Seq<NodeView>,
    kind: Seq<char>,
    f: spec_fn(int) -> Option<DeclarationView>,
) -> spec_fn(int) -> Option<DeclarationView> {
    |n: int|
        if t[n].kind == kind {
            first_in(children_of(t, n), f)
        } else {
            None
        }
}

/// A child of a lambda: a list of names, a list of formal parameters, or a single name.
pub open spec fn in_lambda(t: Seq<NodeView>, name: Seq<char>, path: Seq<char>) -> spec_fn(
    int,
) -> Option<DeclarationView> {
    |n: int|
        if t[n].kind == INFERRED_PARAMETERS@ {
            first_in(children_of(t, n), in_identifier(t, name, path))
        } else if t[n].kind == FORMAL_PARAMETERS@ {
            first_in(children_of(t, n), in_formal_parameter(t, name, path))
        } else {
            in_identifier(t, name, path)(n)
        }
}

/// The local variables that are declared among `ks` and end before the call starts.
pub open spec fn in_block(
    t: Seq<NodeView>,
    ks: Seq<int>,
    call_start: usize,
    name: Seq<char>,
    path: Seq<char>,
) -> Option<DeclarationView>
    decreases ks.len(),
{
    if ks.len() == 0 || t[ks[0]].end_byte > call_start {
        None
    } else {
        let here = if t[ks[0]].kind == LOCAL_VARIABLE_DECLARATION@ {
            in_local_variable(t, ks[0], name, path)
        } else {
            None
        };
        match here {
            Some(d) => Some(d),
            None => in_block(t, ks.subrange(1, ks.len() as int), call_start, name, path),
        }
    }
}

/// The parameter lists among the children of `n`.
pub open spec fn in_parameters_of(
    t: Seq<NodeView>,
    n: int,
    name: Seq<char>,
    path: Seq<char>,
) -> Option<DeclarationView> {
    first_in(
        children_of(t, n),
        inside(t, FORMAL_PARAMETERS@, in_formal_parameter(t, name, path)),
    )
}

/// The fields of a class body, then the components of the record that it may be the body of.
pub open spec fn in_class_body(
    t: Seq<NodeView>,
    n: int,
    name: Seq<char>,
    path: Seq<char>,
) -> Option<DeclarationView> {
    match first_in(children_of(t, n), in_field(t, name, path)) {
        Some(d) => Some(d),
        None => match parent_of(t, n) {
            Some(p) => if t[p].kind == RECORD_DECLARATION@ {
                in_parameters_of(t, p, name, path)
            } else {
                None
            },
            None => None,
        },
    }
}

/// The declaration of `name` that the enclosing node `n` itself introduces.
pub open spec fn in_scope(
    t: Seq<NodeView>,
    n: int,
    call_start: usize,
    name: Seq<char>,
    path: Seq<char>,
) -> Option<DeclarationView> {
    let kind = t[n].kind;
    let ks = children_of(t, n);
    if kind == BLOCK@ {
        in_block(t, ks, call_start, name, path)
    } else if kind == LAMBDA_EXPRESSION@ {
        first_in(ks, in_lambda(t, name, path))
    } else if kind == METHOD_DECLARATION@ || kind == CONSTRUCTOR_DECLARATION@ || kind
        == COMPACT_CONSTRUCTOR_DECLARATION@ {
        in_parameters_of(t, n, name, path)
    } else if kind == TRY_WITH_RESOURCES_STATEMENT@ {
        first_in(ks, inside(t, RESOURCE_SPECIFICATION@, in_resource(t, name, path)))
    } else if kind == IF_STATEMENT@ {
        first_in(ks, inside(t, PARENTHESIZED_EXPRESSION@, in_instanceof(t, name, path)))
    } else if kind == CLASS_BODY@ {
        in_class_body(t, n, name, path)
    } else {
        None
    }
}

/// The declaration of `name` in the scopes around the node `n`, the innermost first.
pub open spec fn declaration_around(
    t: Seq<NodeView>,
    n: int,
    call_start: usize,
    name: Seq<char>,
    path: Seq<char>,
) -> Option<DeclarationView>
    decreases n,
{
    match parent_of(t, n) {
        Some(p) => if 0 <= p < n {
            match in_scope(t, p, call_start, name, path) {
                Some(d) => Some(d),
                None => if t[p].kind == CLASS_BODY@ {
                    None
                } else {
                    declaration_around(t, p, call_start, name, path)
                },
            }
        } else {
            None
        },
        None => None,
    }
}

/// The declaration of the variable `name` that is in scope at the call `n`.
pub open spec fn receiver_declaration(
    t: Seq<NodeView>,
    n: int,
    name: Seq<char>,
    path: Seq<char>,
) -> Option<DeclarationView> {
    declaration_around(t, n, t[n].start_byte, name, path)
}

proof fn lemma_first_in_step(s: Seq<int>, i: int, f: spec_fn(int) -> Option<DeclarationView>)
    requires
        0 <= i < s.len(),
    ensures
        first_in(s.subrange(i, s.len() as int), f) == (match f(s[i]) {
            Some(d) => Some(d),
            None => first_in(s.subrange(i + 1, s.len() as int), f),
        }),
{
    let u = s.subrange(i, s.len() as int);
    assert(u[0] == s[i]);
    assert(u.subrange(1, u.len() as int) == s.subrange(i + 1, s.len() as int));
}

/// What the search needs of a list of nodes of the tree.
pub open spec fn nodes_in(t: Seq<AstNode>, ks: Seq<usize>) -> bool {
    forall|j: int| 0 <= j < ks.len() ==> #[trigger] ks[j] < t.len()
}

/// The name of a declared type, if it is not `var`.
pub fn type_name_of(type_text: &str) -> (r: Option<String>)
    ensures
        opt_text(r) == declared_name(type_text@),
{
    if same(type_text, "var") {
        return None;
    }
    let v = chars_of(type_text);
    let bracket: usize = find_char(&v, '<', 0);
    let head = text_between(&v, 0, bracket);
    if contains_char(head.as_str(), '.') {
        Some(type_text.to_string())
    } else {
        Some(head)
    }
}

/// The declaration of `name` at the node `name_node`, whose initializer may be the node `init`.
fn initialized_declaration(
    t: &Vec<AstNode>,
    type_text: &str,
    name_node: usize,
    init: usize,
    name: &str,
    path: &str,
) -> (r: ReceiverDeclaration)
    requires
        positions_fit(tree(t@)),
        name_node < t@.len(),
        init < t@.len(),
    ensures
        r@ == initialized(tree(t@), type_text@, name_node as int, init as int, name@, path@),
{
    let declared_type = type_name_of(type_text);
    let ghost v = tree(t@);
    assert(v[init as int] == t@[init as int]@);
    assert(v[name_node as int] == t@[name_node as int]@);
    if same(t[init].text.as_str(), name) {
        ReceiverDeclaration {
            expr: name.to_string(),
            declared_type,
            location: location_of(path, &t[name_node]),
        }
    } else {
        ReceiverDeclaration {
            expr: t[init].text.clone(),
            declared_type,
            location: location_of(path, &t[init]),
        }
    }
}

/// The first of the declarators `ks[from..]` that declares `name`.
fn find_in_declarators(
    t: &Vec<AstNode>,
    ks: &Vec<usize>,
    from: usize,
    type_text: &str,
    name: &str,
    path: &str,
) -> (r: Option<ReceiverDeclaration>)
    requires
        positions_fit(tree(t@)),
        nodes_in(t@, ks@),
        from <= ks@.len(),
    ensures
        opt_declaration(r) == first_in(
            as_ints(ks@).subrange(from as int, ks@.len() as int),
            in_declarator(tree(t@), type_text@, name@, path@),
        ),
{
    let ghost v = tree(t@);
    let ghost s = as_ints(ks@);
    let ghost f = in_declarator(v, type_text@, name@, path@);
    let mut i: usize = from;
    while i < ks.len()
        invariant
            v == tree(t@),
            s == as_ints(ks@),
            f == in_declarator(v, type_text@, name@, path@),
            positions_fit(v),
            nodes_in(t@, ks@),
            from <= i <= ks@.len(),
            first_in(s.subrange(from as int, ks@.len() as int), f) == first_in(
                s.subrange(i as int, ks@.len() as int),
                f,
            ),
        decreases ks@.len() - i,
    {
        let d: usize = ks[i];
        proof {
            lemma_first_in_step(s, i as int, f);
            assert(s[i as int] == d as int);
            assert(v[d as int] == t@[d as int]@);
        }
        if same(t[d].kind.as_str(), VARIABLE_DECLARATOR) {
            let parts = children(t, d);
            assert(as_ints(parts@).len() == parts@.len());
            if parts.len() > 0 {
                let first: usize = parts[0];
                let last: usize = parts[parts.len() - 1];
                assert(as_ints(parts@)[0] == first);
                assert(as_ints(parts@).last() == last);
                assert(v[first as int] == t@[first as int]@);
                if same(t[first].text.as_str(), name) {
                    return Some(initialized_declaration(t, type_text, first, last, name, path));
                }
            }
        }
        i = i + 1;
    }
    None
}

/// The declarators behind the type, which is the child number `at` of the declaration `n`.
fn find_in_declaration(
    t: &Vec<AstNode>,
    n: usize,
    at: usize,
    name: &str,
    path: &str,
) -> (r: Option<ReceiverDeclaration>)
    requires
        positions_fit(tree(t@)),
        n < t@.len(),
    ensures
        opt_declaration(r) == in_declaration(tree(t@), n as int, at as int, name@, path@),
{
    let ks = children(t, n);
    assert(as_ints(ks@).len() == ks@.len());
    if ks.len() <= at {
        return None;
    }
    let type_node: usize = ks[at];
    assert(as_ints(ks@)[at as int] == type_node);
    assert(tree(t@)[type_node as int] == t@[type_node as int]@);
    find_in_declarators(t, &ks, at + 1, t[type_node].text.as_str(), name, path)
}

/// The local variable declaration `n`, if it declares `name`.
pub fn extract_declaration_from_local_var_decl(
    t: &Vec<AstNode>,
    n: usize,
    name: &str,
    path: &str,
) -> (r: Option<ReceiverDeclaration>)
    requires
        positions_fit(tree(t@)),
        n < t@.len(),
    ensures
        opt_declaration(r) == in_local_variable(tree(t@), n as int, name@, path@),
{
    find_in_declaration(t, n, 0, name, path)
}

/// The node `n`, if it is a field declaration that declares `name`.
pub fn extract_declaration_from_field_decl(
    t: &Vec<AstNode>,
    n: usize,
    name: &str,
    path: &str,
) -> (r: Option<ReceiverDeclaration>)
    requires
        positions_fit(tree(t@)),
        n < t@.len(),
    ensures
        opt_declaration(r) == in_field(tree(t@), name@, path@)(n as int),
{
    assert(tree(t@)[n as int] == t@[n as int]@);
    if !same(t[n].kind.as_str(), FIELD_DECLARATION) {
        return None;
    }
    let ks = children(t, n);
    assert(as_ints(ks@).len() == ks@.len());
    if ks.len() > 0 {
        let first: usize = ks[0];
        assert(as_ints(ks@)[0] == first);
        assert(tree(t@)[first as int] == t@[first as int]@);
        if same(t[first].kind.as_str(), MODIFIERS) {
            return find_in_declaration(t, n, 1, name, path);
        }
    }
    find_in_declaration(t, n, 0, name, path)
}

/// The node `n`, if it is a resource of a `try` that declares `name`.
pub fn extract_declaration_from_resource(
    t: &Vec<AstNode>,
    n: usize,
    name: &str,
    path: &str,
) -> (r: Option<ReceiverDeclaration>)
    requires
        positions_fit(tree(t@)),
        n < t@.len(),
    ensures
        opt_declaration(r) == in_resource(tree(t@), name@, path@)(n as int),
{
    let ghost v = tree(t@);
    assert(v[n as int] == t@[n as int]@);
    if !same(t[n].kind.as_str(), RESOURCE) {
        return None;
    }
    let ks = children(t, n);
    assert(as_ints(ks@).len() == ks@.len());
    if ks.len() < 2 {
        return None;
    }
    let type_node: usize = ks[0];
    let name_node: usize = ks[1];
    let last: usize = ks[ks.len() - 1];
    assert(as_ints(ks@)[0] == type_node && as_ints(ks@)[1] == name_node && as_ints(ks@).last()
        == last);
    assert(v[type_node as int] == t@[type_node as int]@);
    assert(v[name_node as int] == t@[name_node as int]@);
    if !same(t[name_node].kind.as_str(), IDENTIFIER) || !same(t[name_node].text.as_str(), name) {
        return None;
    }
    Some(initialized_declaration(t, t[type_node].text.as_str(), name_node, last, name, path))
}

/// The node `n`, if it is a formal parameter with the name `name`.
pub fn extract_declaration_from_formal_param(
    t: &Vec<AstNode>,
    n: usize,
    name: &str,
    path: &str,
) -> (r: Option<ReceiverDeclaration>)
    requires
        positions_fit(tree(t@)),
        n < t@.len(),
    ensures
        opt_declaration(r) == in_formal_parameter(tree(t@), name@, path@)(n as int),
{
    let ghost v = tree(t@);
    assert(v[n as int] == t@[n as int]@);
    if !same(t[n].kind.as_str(), FORMAL_PARAMETER) {
        return None;
    }
    let ks = children(t, n);
    assert(as_ints(ks@).len() == ks@.len());
    if ks.len() < 2 {
        return None;
    }
    let type_node: usize = ks[0];
    let last: usize = ks[ks.len() - 1];
    assert(as_ints(ks@)[0] == type_node && as_ints(ks@).last() == last);
    assert(v[type_node as int] == t@[type_node as int]@);
    assert(v[last as int] == t@[last as int]@);
    if !same(t[last].text.as_str(), name) {
        return None;
    }
    Some(
        ReceiverDeclaration {
            expr: t[n].text.clone(),
            declared_type: type_name_of(t[type_node].text.as_str()),
            location: location_of(path, &t[n]),
        },
    )
}

/// The text of the last of the nodes `ks` that is of the given kind.
fn find_last_of_kind(t: &Vec<AstNode>, ks: &Vec<usize>, kind: &str) -> (r: Option<String>)
    requires
        nodes_in(t@, ks@),
    ensures
        opt_text(r) == last_of_kind(tree(t@), as_ints(ks@), kind@),
{
    let ghost v = tree(t@);
    let ghost s = as_ints(ks@);
    let mut i: usize = ks.len();
    assert(s.subrange(0, s.len() as int) == s);
    while i > 0
        invariant
            v == tree(t@),
            s == as_ints(ks@),
            nodes_in(t@, ks@),
            i <= ks@.len(),
            last_of_kind(v, s, kind@) == last_of_kind(v, s.subrange(0, i as int), kind@),
        decreases i,
    {
        let k: usize = ks[i - 1];
        let ghost u = s.subrange(0, i as int);
        assert(u.last() == k as int);
        assert(u.drop_last() == s.subrange(0, i - 1));
        assert(v[k as int] == t@[k as int]@);
        if same(t[k].kind.as_str(), kind) {
            return Some(t[k].text.clone());
        }
        i = i - 1;
    }
    None
}

/// The node `n`, if it is an `instanceof` expression whose pattern binds `name`.
pub fn extract_declaration_from_instanceof_expr(
    t: &Vec<AstNode>,
    n: usize,
    name: &str,
    path: &str,
) -> (r: Option<ReceiverDeclaration>)
    requires
        positions_fit(tree(t@)),
        n < t@.len(),
    ensures
        opt_declaration(r) == in_instanceof(tree(t@), name@, path@)(n as int),
{
    assert(tree(t@)[n as int] == t@[n as int]@);
    if !same(t[n].kind.as_str(), INSTANCEOF_EXPRESSION) {
        return None;
    }
    let ks = children(t, n);
    let binding = match find_last_of_kind(t, &ks, IDENTIFIER) {
        Some(b) => b,
        None => {
            return None;
        },
    };
    if !same(binding.as_str(), name) {
        return None;
    }
    match find_last_of_kind(t, &ks, TYPE_IDENTIFIER) {
        Some(type_text) => {
            let head = concat(type_text.as_str(), " ");
            let expr = concat(head.as_str(), binding.as_str());
            Some(
                ReceiverDeclaration {
                    expr,
                    declared_type: Some(type_text),
                    location: location_of(path, &t[n]),
                },
            )
        },
        None => None,
    }
}

/// The node `n`, if it is the identifier `name`.
fn extract_declaration_from_identifier(
    t: &Vec<AstNode>,
    n: usize,
    name: &str,
    path: &str,
) -> (r: Option<ReceiverDeclaration>)
    requires
        positions_fit(tree(t@)),
        n < t@.len(),
    ensures
        opt_declaration(r) == in_identifier(tree(t@), name@, path@)(n as int),
{
    assert(tree(t@)[n as int] == t@[n as int]@);
    if same(t[n].kind.as_str(), IDENTIFIER) && same(t[n].text.as_str(), name) {
        Some(
            ReceiverDeclaration {
                expr: t[n].text.clone(),
                declared_type: None,
                location: location_of(path, &t[n]),
            },
        )
    } else {
        None
    }
}

/// The first child of `n` that is the identifier `name`.
fn find_in_identifiers(
    t: &Vec<AstNode>,
    n: usize,
    name: &str,
    path: &str,
) -> (r: Option<ReceiverDeclaration>)
    requires
        positions_fit(tree(t@)),
        n < t@.len(),
    ensures
        opt_declaration(r) == first_in(
            children_of(tree(t@), n as int),
            in_identifier(tree(t@), name@, path@),
        ),
{
    let ks = children(t, n);
    let ghost v = tree(t@);
    let ghost s = as_ints(ks@);
    let ghost f = in_identifier(v, name@, path@);
    let mut i: usize = 0;
    assert(s.subrange(0, s.len() as int) == s);
    while i < ks.len()
        invariant
            v == tree(t@),
            s == as_ints(ks@),
            s == children_of(v, n as int),
            f == in_identifier(v, name@, path@),
            positions_fit(v),
            nodes_in(t@, ks@),
            i <= ks@.len(),
            first_in(s, f) == first_in(s.subrange(i as int, ks@.len() as int), f),
        decreases ks@.len() - i,
    {
        let k: usize = ks[i];
        proof {
            lemma_first_in_step(s, i as int, f);
            assert(s[i as int] == k as int);
            assert(v[k as int] == t@[k as int]@);
        }
        let found = extract_declaration_from_identifier(t, k, name, path);
        if found.is_some() {
            return found;
        }
        i = i + 1;
    }
    None
}

/// The first child of `n` that is a formal parameter with the name `name`.
fn find_in_formal_parameters(
    t: &Vec<AstNode>,
    n: usize,
    name: &str,
    path: &str,
) -> (r: Option<ReceiverDeclaration>)
    requires
        positions_fit(tree(t@)),
        n < t@.len(),
    ensures
        opt_declaration(r) == first_in(
            children_of(tree(t@), n as int),
            in_formal_parameter(tree(t@), name@, path@),
        ),
{
    let ks = children(t, n);
    let ghost v = tree(t@);
    let ghost s = as_ints(ks@);
    let ghost f = in_formal_parameter(v, name@, path@);
    let mut i: usize = 0;
    assert(s.subrange(0, s.len() as int) == s);
    while i < ks.len()
        invariant
            v == tree(t@),
            s == as_ints(ks@),
            s == children_of(v, n as int),
            f == in_formal_parameter(v, name@, path@),
            positions_fit(v),
            nodes_in(t@, ks@),
            i <= ks@.len(),
            first_in(s, f) == first_in(s.subrange(i as int, ks@.len() as int), f),
        decreases ks@.len() - i,
    {
        let k: usize = ks[i];
        proof {
            lemma_first_in_step(s, i as int, f);
            assert(s[i as int] == k as int);
            assert(v[k as int] == t@[k as int]@);
        }
        let found = extract_declaration_from_formal_param(t, k, name, path);
        if found.is_some() {
            return found;
        }
        i = i + 1;
    }
    None
}

/// The first child of `n` that is a resource that declares `name`.
fn find_in_resources(
    t: &Vec<AstNode>,
    n: usize,
    name: &str,
    path: &str,
) -> (r: Option<ReceiverDeclaration>)
    requires
        positions_fit(tree(t@)),
        n < t@.len(),
    ensures
        opt_declaration(r) == first_in(
            children_of(tree(t@), n as int),
            in_resource(tree(t@), name@, path@),
        ),
{
    let ks = children(t, n);
    let ghost v = tree(t@);
    let ghost s = as_ints(ks@);
    let ghost f = in_resource(v, name@, path@);
    let mut i: usize = 0;
    assert(s.subrange(0, s.len() as int) == s);
    while i < ks.len()
        invariant
            v == tree(t@),
            s == as_ints(ks@),
            s == children_of(v, n as int),
            f == in_resource(v, name@, path@),
            positions_fit(v),
            nodes_in(t@, ks@),
            i <= ks@.len(),
            first_in(s, f) == first_in(s.subrange(i as int, ks@.len() as int), f),
        decreases ks@.len() - i,
    {
        let k: usize = ks[i];
        proof {
            lemma_first_in_step(s, i as int, f);
            assert(s[i as int] == k as int);
            assert(v[k as int] == t@[k as int]@);
        }
        let found = extract_declaration_from_resource(t, k, name, path);
        if found.is_some() {
            return found;
        }
        i = i + 1;
    }
    None
}

/// The first child of `n` that is an `instanceof` expression that binds `name`.
fn find_in_patterns(
    t: &Vec<AstNode>,
    n: usize,
    name: &str,
    path: &str,
) -> (r: Option<ReceiverDeclaration>)
    requires
        positions_fit(tree(t@)),
        n < t@.len(),
    ensures
        opt_declaration(r) == first_in(
            children_of(tree(t@), n as int),
            in_instanceof(tree(t@), name@, path@),
        ),
{
    let ks = children(t, n);
    let ghost v = tree(t@);
    let ghost s = as_ints(ks@);
    let ghost f = in_instanceof(v, name@, path@);
    let mut i: usize = 0;
    assert(s.subrange(0, s.len() as int) == s);
    while i < ks.len()
        invariant
            v == tree(t@),
            s == as_ints(ks@),
            s == children_of(v, n as int),
            f == in_instanceof(v, name@, path@),
            positions_fit(v),
            nodes_in(t@, ks@),
            i <= ks@.len(),
            first_in(s, f) == first_in(s.subrange(i as int, ks@.len() as int), f),
        decreases ks@.len() - i,
    {
        let k: usize = ks[i];
        proof {
            lemma_first_in_step(s, i as int, f);
            assert(s[i as int] == k as int);
            assert(v[k as int] == t@[k as int]@);
        }
        let found = extract_declaration_from_instanceof_expr(t, k, name, path);
        if found.is_some() {
            return found;
        }
        i = i + 1;
    }
    None
}

/// The first child of `n` that is a field declaration that declares `name`.
fn find_in_fields(
    t: &Vec<AstNode>,
    n: usize,
    name: &str,
    path: &str,
) -> (r: Option<ReceiverDeclaration>)
    requires
        positions_fit(tree(t@)),
        n < t@.len(),
    ensures
        opt_declaration(r) == first_in(
            children_of(tree(t@), n as int),
            in_field(tree(t@), name@, path@),
        ),
{
    let ks = children(t, n);
    let ghost v = tree(t@);
    let ghost s = as_ints(ks@);
    let ghost f = in_field(v, name@, path@);
    let mut i: usize = 0;
    assert(s.subrange(0, s.len() as int) == s);
    while i < ks.len()
        invariant
            v == tree(t@),
            s == as_ints(ks@),
            s == children_of(v, n as int),
            f == in_field(v, name@, path@),
            positions_fit(v),
            nodes_in(t@, ks@),
            i <= ks@.len(),
            first_in(s, f) == first_in(s.subrange(i as int, ks@.len() as int), f),
        decreases ks@.len() - i,
    {
        let k: usize = ks[i];
        proof {
            lemma_first_in_step(s, i as int, f);
            assert(s[i as int] == k as int);
            assert(v[k as int] == t@[k as int]@);
        }
        let found = extract_declaration_from_field_decl(t, k, name, path);
        if found.is_some() {
            return found;
        }
        i = i + 1;
    }
    None
}

/// The first formal parameter with the name `name` in the parameter lists of `n`.
fn find_in_parameter_lists(
    t: &Vec<AstNode>,
    n: usize,
    name: &str,
    path: &str,
) -> (r: Option<ReceiverDeclaration>)
    requires
        positions_fit(tree(t@)),
        n < t@.len(),
    ensures
        opt_declaration(r) == first_in(
            children_of(tree(t@), n as int),
            inside(tree(t@), FORMAL_PARAMETERS@, in_formal_parameter(tree(t@), name@, path@)),
        ),
{
    let ks = children(t, n);
    let ghost v = tree(t@);
    let ghost s = as_ints(ks@);
    let ghost f = inside(v, FORMAL_PARAMETERS@, in_formal_parameter(v, name@, path@));
    let mut i: usize = 0;
    assert(s.subrange(0, s.len() as int) == s);
    while i < ks.len()
        invariant
            v == tree(t@),
            s == as_ints(ks@),
            s == children_of(v, n as int),
            f == inside(v, FORMAL_PARAMETERS@, in_formal_parameter(v, name@, path@)),
            positions_fit(v),
            nodes_in(t@, ks@),
            i <= ks@.len(),
            first_in(s, f) == first_in(s.subrange(i as int, ks@.len() as int), f),
        decreases ks@.len() - i,
    {
        let k: usize = ks[i];
        proof {
            lemma_first_in_step(s, i as int, f);
            assert(s[i as int] == k as int);
            assert(v[k as int] == t@[k as int]@);
        }
        if same(t[k].kind.as_str(), FORMAL_PARAMETERS) {
            let found = find_in_formal_parameters(t, k, name, path);
            if found.is_some() {
                return found;
            }
        }
        i = i + 1;
    }
    None
}

/// The first resource that declares `name` in the resource lists of `n`.
fn find_in_resource_lists(
    t: &Vec<AstNode>,
    n: usize,
    name: &str,
    path: &str,
) -> (r: Option<ReceiverDeclaration>)
    requires
        positions_fit(tree(t@)),
        n < t@.len(),
    ensures
        opt_declaration(r) == first_in(
            children_of(tree(t@), n as int),
            inside(tree(t@), RESOURCE_SPECIFICATION@, in_resource(tree(t@), name@, path@)),
        ),
{
    let ks = children(t, n);
    let ghost v = tree(t@);
    let ghost s = as_ints(ks@);
    let ghost f = inside(v, RESOURCE_SPECIFICATION@, in_resource(v, name@, path@));
    let mut i: usize = 0;
    assert(s.subrange(0, s.len() as int) == s);
    while i < ks.len()
        invariant
            v == tree(t@),
            s == as_ints(ks@),
            s == children_of(v, n as int),
            f == inside(v, RESOURCE_SPECIFICATION@, in_resource(v, name@, path@)),
            positions_fit(v),
            nodes_in(t@, ks@),
            i <= ks@.len(),
            first_in(s, f) == first_in(s.subrange(i as int, ks@.len() as int), f),
        decreases ks@.len() - i,
    {
        let k: usize = ks[i];
        proof {
            lemma_first_in_step(s, i as int, f);
            assert(s[i as int] == k as int);
            assert(v[k as int] == t@[k as int]@);
        }
        if same(t[k].kind.as_str(), RESOURCE_SPECIFICATION) {
            let found = find_in_resources(t, k, name, path);
            if found.is_some() {
                return found;
            }
        }
        i = i + 1;
    }
    None
}

/// The first `instanceof` expression that binds `name` in the conditions of `n`.
fn find_in_conditions(
    t: &Vec<AstNode>,
    n: usize,
    name: &str,
    path: &str,
) -> (r: Option<ReceiverDeclaration>)
    requires
        positions_fit(tree(t@)),
        n < t@.len(),
    ensures
        opt_declaration(r) == first_in(
            children_of(tree(t@), n as int),
            inside(tree(t@), PARENTHESIZED_EXPRESSION@, in_instanceof(tree(t@), name@, path@)),
        ),
{
    let ks = children(t, n);
    let ghost v = tree(t@);
    let ghost s = as_ints(ks@);
    let ghost f = inside(v, PARENTHESIZED_EXPRESSION@, in_instanceof(v, name@, path@));
    let mut i: usize = 0;
    assert(s.subrange(0, s.len() as int) == s);
    while i < ks.len()
        invariant
            v == tree(t@),
            s == as_ints(ks@),
            s == children_of(v, n as int),
            f == inside(v, PARENTHESIZED_EXPRESSION@, in_instanceof(v, name@, path@)),
            positions_fit(v),
            nodes_in(t@, ks@),
            i <= ks@.len(),
            first_in(s, f) == first_in(s.subrange(i as int, ks@.len() as int), f),
        decreases ks@.len() - i,
    {
        let k: usize = ks[i];
        proof {
            lemma_first_in_step(s, i as int, f);
            assert(s[i as int] == k as int);
            assert(v[k as int] == t@[k as int]@);
        }
        if same(t[k].kind.as_str(), PARENTHESIZED_EXPRESSION) {
            let found = find_in_patterns(t, k, name, path);
            if found.is_some() {
                return found;
            }
        }
        i = i + 1;
    }
    None
}

/// The parameter `name` of the lambda `n`.
fn find_in_lambda(
    t: &Vec<AstNode>,
    n: usize,
    name: &str,
    path: &str,
) -> (r: Option<ReceiverDeclaration>)
    requires
        positions_fit(tree(t@)),
        n < t@.len(),
    ensures
        opt_declaration(r) == first_in(
            children_of(tree(t@), n as int),
            in_lambda(tree(t@), name@, path@),
        ),
{
    let ks = children(t, n);
    let ghost v = tree(t@);
    let ghost s = as_ints(ks@);
    let ghost f = in_lambda(v, name@, path@);
    let mut i: usize = 0;
    assert(s.subrange(0, s.len() as int) == s);
    while i < ks.len()
        invariant
            v == tree(t@),
            s == as_ints(ks@),
            s == children_of(v, n as int),
            f == in_lambda(v, name@, path@),
            positions_fit(v),
            nodes_in(t@, ks@),
            i <= ks@.len(),
            first_in(s, f) == first_in(s.subrange(i as int, ks@.len() as int), f),
        decreases ks@.len() - i,
    {
        let k: usize = ks[i];
        proof {
            lemma_first_in_step(s, i as int, f);
            assert(s[i as int] == k as int);
            assert(v[k as int] == t@[k as int]@);
        }
        let found = if same(t[k].kind.as_str(), INFERRED_PARAMETERS) {
            find_in_identifiers(t, k, name, path)
        } else if same(t[k].kind.as_str(), FORMAL_PARAMETERS) {
            find_in_formal_parameters(t, k, name, path)
        } else {
            extract_declaration_from_identifier(t, k, name, path)
        };
        if found.is_some() {
            return found;
        }
        i = i + 1;
    }
    None
}

/// The local variable `name` of the block `n` that is declared before the call starts.
fn find_in_block(
    t: &Vec<AstNode>,
    n: usize,
    call_start: usize,
    name: &str,
    path: &str,
) -> (r: Option<ReceiverDeclaration>)
    requires
        positions_fit(tree(t@)),
        n < t@.len(),
    ensures
        opt_declaration(r) == in_block(
            tree(t@),
            children_of(tree(t@), n as int),
            call_start,
            name@,
            path@,
        ),
{
    let ks = children(t, n);
    let ghost v = tree(t@);
    let ghost s = as_ints(ks@);
    let mut i: usize = 0;
    assert(s.subrange(0, s.len() as int) == s);
    while i < ks.len()
        invariant
            v == tree(t@),
            s == as_ints(ks@),
            s == children_of(v, n as int),
            positions_fit(v),
            nodes_in(t@, ks@),
            i <= ks@.len(),
            in_block(v, s, call_start, name@, path@) == in_block(
                v,
                s.subrange(i as int, ks@.len() as int),
                call_start,
                name@,
                path@,
            ),
        decreases ks@.len() - i,
    {
        let k: usize = ks[i];
        proof {
            let u = s.subrange(i as int, s.len() as int);
            assert(u[0] == k as int);
            assert(u.subrange(1, u.len() as int) == s.subrange(i + 1, s.len() as int));
            assert(v[k as int] == t@[k as int]@);
        }
        if t[k].end_byte > call_start {
            return None;
        }
        if same(t[k].kind.as_str(), LOCAL_VARIABLE_DECLARATION) {
            let found = extract_declaration_from_local_var_decl(t, k, name, path);
            if found.is_some() {
                return found;
            }
        }
        i = i + 1;
    }
    None
}

/// The field `name` of the class body `n`, or the component of the record that it belongs to.
fn find_in_class_body(
    t: &Vec<AstNode>,
    n: usize,
    name: &str,
    path: &str,
) -> (r: Option<ReceiverDeclaration>)
    requires
        positions_fit(tree(t@)),
        n < t@.len(),
    ensures
        opt_declaration(r) == in_class_body(tree(t@), n as int, name@, path@),
{
    let field = find_in_fields(t, n, name, path);
    if field.is_some() {
        return field;
    }
    match parent(t, n) {
        Some(p) => {
            assert(tree(t@)[p as int] == t@[p as int]@);
            if same(t[p].kind.as_str(), RECORD_DECLARATION) {
                find_in_parameter_lists(t, p, name, path)
            } else {
                None
            }
        },
        None => None,
    }
}

/// The declaration of `name` that the enclosing node `n` itself introduces.
fn find_in_scope(
    t: &Vec<AstNode>,
    n: usize,
    call_start: usize,
    name: &str,
    path: &str,
) -> (r: Option<ReceiverDeclaration>)
    requires
        positions_fit(tree(t@)),
        n < t@.len(),
    ensures
        opt_declaration(r) == in_scope(tree(t@), n as int, call_start, name@, path@),
{
    assert(tree(t@)[n as int] == t@[n as int]@);
    let kind = t[n].kind.as_str();
    if same(kind, BLOCK) {
        find_in_block(t, n, call_start, name, path)
    } else if same(kind, LAMBDA_EXPRESSION) {
        find_in_lambda(t, n, name, path)
    } else if same(kind, METHOD_DECLARATION) || same(kind, CONSTRUCTOR_DECLARATION) || same(
        kind,
        COMPACT_CONSTRUCTOR_DECLARATION,
    ) {
        find_in_parameter_lists(t, n, name, path)
    } else if same(kind, TRY_WITH_RESOURCES_STATEMENT) {
        find_in_resource_lists(t, n, name, path)
    } else if same(kind, IF_STATEMENT) {
        find_in_conditions(t, n, name, path)
    } else if same(kind, CLASS_BODY) {
        find_in_class_body(t, n, name, path)
    } else {
        None
    }
}

/// The declaration of the variable `name` that is in scope at the call `call`.
pub fn find_receiver_declaration(
    t: &Vec<AstNode>,
    call: usize,
    name: &str,
    path: &str,
) -> (r: Option<ReceiverDeclaration>)
    requires
        positions_fit(tree(t@)),
        call < t@.len(),
    ensures
        opt_declaration(r) == receiver_declaration(tree(t@), call as int, name@, path@),
{
    let ghost v = tree(t@);
    assert(v[call as int] == t@[call as int]@);
    let call_start: usize = t[call].start_byte;
    let mut n: usize = call;
    loop
        invariant
            v == tree(t@),
            positions_fit(v),
            n < t@.len(),
            receiver_declaration(v, call as int, name@, path@) == declaration_around(
                v,
                n as int,
                call_start,
                name@,
                path@,
            ),
        decreases n,
    {
        match parent(t, n) {
            Some(p) => {
                assert(v[p as int] == t@[p as int]@);
                let found = find_in_scope(t, p, call_start, name, path);
                if found.is_some() {
                    return found;
                }
                if same(t[p].kind.as_str(), CLASS_BODY) {
                    return None;
                }
                n = p;
            },
            None => {
                return None;
            },
        }
    }
}

/// The innermost scope wins: what the closest enclosing node declares is the result, whatever
/// the scopes further out declare.
pub proof fn innermost_scope_wins(
    t: Seq<NodeView>,
    n: int,
    p: int,
    call_start: usize,
    name: Seq<char>,
    path: Seq<char>,
)
    requires
        0 <= n < t.len(),
        parent_of(t, n) == Some(p),
        in_scope(t, p, call_start, name, path) is Some,
    ensures
        declaration_around(t, n, call_start, name, path) == in_scope(t, p, call_start, name, path),
{
    crate::java::ast::parents_precede_children(t, n);
}

/// The search does not leave the enclosing class: a name that a class body, or the record that it
/// belongs to, does not declare is not found in any type around it.
pub proof fn search_ends_at_class_body(
    t: Seq<NodeView>,
    n: int,
    p: int,
    call_start: usize,
    name: Seq<char>,
    path: Seq<char>,
)
    requires
        0 <= n < t.len(),
        parent_of(t, n) == Some(p),
        t[p].kind == CLASS_BODY@,
        in_scope(t, p, call_start, name, path) is None,
    ensures
        declaration_around(t, n, call_start, name, path) is None,
{
    crate::java::ast::parents_precede_children(t, n);
}

/// A scope that does not declare the name hides nothing: the search goes on outside it.
pub proof fn search_passes_other_scopes(
    t: Seq<NodeView>,
    n: int,
    p: int,
    call_start: usize,
    name: Seq<char>,
    path: Seq<char>,
)
    requires
        0 <= n < t.len(),
        parent_of(t, n) == Some(p),
        t[p].kind != CLASS_BODY@,
        in_scope(t, p, call_start, name, path) is None,
    ensures
        declaration_around(t, n, call_start, name, path) == declaration_around(
            t,
            p,
            call_start,
            name,
            path,
        ),
{
    crate::java::ast::parents_precede_children(t, n);
}

/// Statements of a block from the first that ends behind the start of the call on declare
/// nothing for the call.
pub proof fn later_statements_declare_nothing(
    t: Seq<NodeView>,
    before: Seq<int>,
    later: Seq<int>,
    call_start: usize,
    name: Seq<char>,
    path: Seq<char>,
)
    requires
        later.len() > 0,
        t[later[0]].end_byte > call_start,
    ensures
        in_block(t, before + later, call_start, name, path) == in_block(
            t,
            before,
            call_start,
            name,
            path,
        ),
    decreases before.len(),
{
    let all = before + later;
    if before.len() == 0 {
        assert(all == later);
    } else {
        let rest = before.subrange(1, before.len() as int);
        later_statements_declare_nothing(t, rest, later, call_start, name, path);
        assert(all.subrange(1, all.len() as int) == rest + later);
    }
}

} // verus!
