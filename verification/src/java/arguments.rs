//! The arguments of a Java method call.

use vstd::prelude::*;

use crate::java::ast::{children, children_of, tree, AstNode, NodeView};
use crate::java::scope::{nodes_in, ARGUMENT_LIST, COMMA, LEFT_PAREN, RIGHT_PAREN};
use crate::order::as_ints;
use crate::sdk::{parameter_views, Parameter, ParameterValue, ParameterValueView, ParameterView};
use crate::text::{same, trim_char, trimmed_of};

verus! {

/// The literals whose text is their value.
pub open spec fn is_plain_literal(kind: Seq<char>) -> bool {
    ||| kind == "decimal_integer_literal"@
    ||| kind == "decimal_floating_point_literal"@
    ||| kind == "hex_integer_literal"@
    ||| kind == "octal_integer_literal"@
    ||| kind == "binary_integer_literal"@
    ||| kind == "true"@
    ||| kind == "false"@
    ||| kind == "null_literal"@
}

/// The value of an argument. Quotes around a string or a character are not part of it. What is
/// not a literal is kept as an expression.
pub open spec fn literal_value(n: NodeView) -> ParameterValueView {
    if n.kind == "string_literal"@ {
        ParameterValueView::Resolved(trimmed_of(n.text, '"'))
    } else if n.kind == "character_literal"@ {
        ParameterValueView::Resolved(trimmed_of(n.text, '\''))
    } else if is_plain_literal(n.kind) {
        ParameterValueView::Resolved(n.text)
    } else {
        ParameterValueView::Unresolved(n.text)
    }
}

/// The tokens of an argument list that are no arguments.
pub open spec fn is_punctuation(kind: Seq<char>) -> bool {
    kind == LEFT_PAREN@ || kind == RIGHT_PAREN@ || kind == COMMA@
}

/// The arguments among the nodes `ks`, with their positions.
pub open spec fn arguments_in(t: Seq<NodeView>, ks: Seq<int>) -> Seq<ParameterView>
    decreases ks.len(),
{
    if ks.len() == 0 {
        Seq::empty()
    } else {
        let before = arguments_in(t, ks.drop_last());
        if is_punctuation(t[ks.last()].kind) {
            before
        } else {
            before.push(
                ParameterView::Positional {
                    value: literal_value(t[ks.last()]),
                    position: before.len() as usize,
                    type_annotation: None,
                    struct_fields: None,
                },
            )
        }
    }
}

/// The first of the nodes `ks` that is an argument list.
pub open spec fn argument_list_in(t: Seq<NodeView>, ks: Seq<int>) -> Option<int>
    decreases ks.len(),
{
    if ks.len() == 0 {
        None
    } else if t[ks[0]].kind == ARGUMENT_LIST@ {
        Some(ks[0])
    } else {
        argument_list_in(t, ks.subrange(1, ks.len() as int))
    }
}

/// The arguments of the call `n`.
pub open spec fn arguments_of(t: Seq<NodeView>, n: int) -> Seq<ParameterView> {
    match argument_list_in(t, children_of(t, n)) {
        Some(list) => arguments_in(t, children_of(t, list)),
        None => Seq::empty(),
    }
}

/// The value of an argument.
pub fn resolve_java_literal(n: &AstNode) -> (r: ParameterValue)
    ensures
        r@ == literal_value(n@),
{
    let kind = n.kind.as_str();
    if same(kind, "string_literal") {
        ParameterValue::Resolved(trim_char(n.text.as_str(), '"'))
    } else if same(kind, "character_literal") {
        ParameterValue::Resolved(trim_char(n.text.as_str(), '\''))
    } else if same(kind, "decimal_integer_literal") || same(kind, "decimal_floating_point_literal")
        || same(kind, "hex_integer_literal") || same(kind, "octal_integer_literal") || same(
        kind,
        "binary_integer_literal",
    ) || same(kind, "true") || same(kind, "false") || same(kind, "null_literal") {
        ParameterValue::Resolved(n.text.clone())
    } else {
        ParameterValue::Unresolved(n.text.clone())
    }
}

fn find_argument_list(t: &Vec<AstNode>, ks: &Vec<usize>) -> (r: Option<usize>)
    requires
        nodes_in(t@, ks@),
    ensures
        match r {
            Some(k) => k < t@.len() && argument_list_in(tree(t@), as_ints(ks@)) == Some(k as int),
            None => argument_list_in(tree(t@), as_ints(ks@)) is None,
        },
{
    let ghost v = tree(t@);
    let ghost s = as_ints(ks@);
    let mut i: usize = 0;
    assert(s.subrange(0, s.len() as int) == s);
    while i < ks.len()
        invariant
            v == tree(t@),
            s == as_ints(ks@),
            nodes_in(t@, ks@),
            i <= ks@.len(),
            argument_list_in(v, s) == argument_list_in(v, s.subrange(i as int, s.len() as int)),
        decreases ks@.len() - i,
    {
        let k: usize = ks[i];
        proof {
            let u = s.subrange(i as int, s.len() as int);
            assert(u[0] == k as int);
            assert(u.subrange(1, u.len() as int) == s.subrange(i + 1, s.len() as int));
            assert(v[k as int] == t@[k as int]@);
        }
        if same(t[k].kind.as_str(), ARGUMENT_LIST) {
            return Some(k);
        }
        i = i + 1;
    }
    None
}

/// The arguments of the call `n`, in source order.
pub fn extract_arguments_from_node(t: &Vec<AstNode>, n: usize) -> (r: Vec<Parameter>)
    requires
        n < t@.len(),
    ensures
        parameter_views(r@) == arguments_of(tree(t@), n as int),
{
    let mut out: Vec<Parameter> = Vec::new();
    let calls = children(t, n);
    let list: usize = match find_argument_list(t, &calls) {
        Some(k) => k,
        None => {
            assert(parameter_views(out@) =~= Seq::<ParameterView>::empty());
            return out;
        },
    };
    let ks = children(t, list);
    let ghost v = tree(t@);
    let ghost s = as_ints(ks@);
    let mut i: usize = 0;
    assert(parameter_views(out@) =~= Seq::<ParameterView>::empty());
    assert(s.subrange(0, 0).len() == 0);
    while i < ks.len()
        invariant
            v == tree(t@),
            s == as_ints(ks@),
            nodes_in(t@, ks@),
            i <= ks@.len(),
            parameter_views(out@) == arguments_in(v, s.subrange(0, i as int)),
        decreases ks@.len() - i,
    {
        let k: usize = ks[i];
        let ghost u = s.subrange(0, i + 1);
        let ghost before = parameter_views(out@);
        assert(u.last() == k as int);
        assert(u.drop_last() == s.subrange(0, i as int));
        assert(v[k as int] == t@[k as int]@);
        let kind = t[k].kind.as_str();
        if !(same(kind, LEFT_PAREN) || same(kind, RIGHT_PAREN) || same(kind, COMMA)) {
            let position: usize = out.len();
            let p = Parameter::Positional {
                value: resolve_java_literal(&t[k]),
                position,
                type_annotation: None,
                struct_fields: None,
            };
            out.push(p);
            assert(parameter_views(out@) =~= before.push(p@));
        }
        i = i + 1;
    }
    assert(s.subrange(0, s.len() as int) == s);
    out
}

/// The positions of the arguments count from zero without a gap.
pub proof fn argument_positions_count_up(t: Seq<NodeView>, ks: Seq<int>, i: int)
    requires
        0 <= i < arguments_in(t, ks).len(),
        arguments_in(t, ks).len() <= usize::MAX,
    ensures
        arguments_in(t, ks)[i] matches ParameterView::Positional { position, .. } && position == i,
    decreases ks.len(),
{
    let before = arguments_in(t, ks.drop_last());
    if i < before.len() {
        argument_positions_count_up(t, ks.drop_last(), i);
    }
}

} // verus!
