//! The order of SDK calls: by name, then by place.

use vstd::prelude::*;

use crate::order::{
    in_order, is_weak_order, order_of, ranks_with, sorting_puts_in_order, stable_sorted, Ranked,
};
use crate::paths::{component_lt, components_lt, path_components, path_less};
use crate::sdk::{Location, LocationView, SdkCallView, SdkMethodCall};
use crate::text::{
    lemma_text_lt_irreflexive, lemma_text_lt_total, lemma_text_lt_transitive, less, same, text_lt,
};

verus! {

pub open spec fn position_lt(a: (usize, usize), b: (usize, usize)) -> bool {
    a.0 < b.0 || (a.0 == b.0 && a.1 < b.1)
}

/// By file, then by start, then by end.
pub open spec fn location_lt(a: LocationView, b: LocationView) -> bool {
    let p = path_components(a.file_path);
    let q = path_components(b.file_path);
    ||| components_lt(p, q)
    ||| p == q && position_lt(a.start_position, b.start_position)
    ||| p == q && a.start_position == b.start_position && position_lt(
        a.end_position,
        b.end_position,
    )
}

/// The place of a call, if it has one.
pub open spec fn call_location(c: SdkCallView) -> Option<LocationView> {
    match c.metadata {
        Some(m) => Some(m.location),
        None => None,
    }
}

/// By place; a call without a place comes first.
pub open spec fn place_lt(a: Option<LocationView>, b: Option<LocationView>) -> bool {
    match (a, b) {
        (None, Some(_)) => true,
        (Some(x), Some(y)) => location_lt(x, y),
        _ => false,
    }
}

/// By name, then by place.
pub open spec fn call_lt(a: SdkCallView, b: SdkCallView) -> bool {
    text_lt(a.name, b.name) || (a.name == b.name && place_lt(call_location(a), call_location(b)))
}

fn position_less(a: (usize, usize), b: (usize, usize)) -> (r: bool)
    ensures
        r == position_lt(a, b),
{
    a.0 < b.0 || (a.0 == b.0 && a.1 < b.1)
}

fn location_less(a: &Location, b: &Location) -> (r: bool)
    ensures
        r == location_lt(a@, b@),
{
    let p = a.file_path.as_str();
    let q = b.file_path.as_str();
    proof {
        lemma_components_total(path_components(p@), path_components(q@));
        lemma_components_irreflexive(path_components(p@));
    }
    if path_less(p, q) {
        return true;
    }
    if path_less(q, p) {
        proof {
            if path_components(p@) == path_components(q@) {
                assert(false);
            }
        }
        return false;
    }
    if position_less(a.start_position, b.start_position) {
        return true;
    }
    a.start_position.0 == b.start_position.0 && a.start_position.1 == b.start_position.1
        && position_less(a.end_position, b.end_position)
}

impl Ranked for SdkMethodCall {
    open spec fn before(a: SdkCallView, b: SdkCallView) -> bool {
        call_lt(a, b)
    }

    fn comes_before(&self, other: &Self) -> (r: bool) {
        proof {
            lemma_text_lt_irreflexive(self.name@);
        }
        if !same(self.name.as_str(), other.name.as_str()) {
            return less(self.name.as_str(), other.name.as_str());
        }
        match (&self.metadata, &other.metadata) {
            (None, Some(_)) => true,
            (Some(x), Some(y)) => location_less(&x.location, &y.location),
            _ => false,
        }
    }
}

proof fn lemma_component_order(a: Seq<char>, b: Seq<char>, c: Seq<char>)
    ensures
        !component_lt(a, a),
        a == b || component_lt(a, b) || component_lt(b, a),
        component_lt(a, b) && component_lt(b, c) ==> component_lt(a, c),
{
    lemma_text_lt_irreflexive(a);
    lemma_text_lt_total(a, b);
    if text_lt(a, b) && text_lt(b, c) {
        lemma_text_lt_transitive(a, b, c);
    }
}

proof fn lemma_components_irreflexive(a: Seq<Seq<char>>)
    ensures
        !components_lt(a, a),
    decreases a.len(),
{
    if a.len() > 0 {
        lemma_components_irreflexive(a.subrange(1, a.len() as int));
    }
}

proof fn lemma_components_total(a: Seq<Seq<char>>, b: Seq<Seq<char>>)
    ensures
        a == b || components_lt(a, b) || components_lt(b, a),
    decreases a.len(),
{
    if a.len() == 0 && b.len() == 0 {
        assert(a =~= b);
    } else if a.len() > 0 && b.len() > 0 {
        if a[0] != b[0] {
            lemma_component_order(a[0], b[0], a[0]);
        } else {
            let x = a.subrange(1, a.len() as int);
            let y = b.subrange(1, b.len() as int);
            lemma_components_total(x, y);
            if x == y {
                assert(a =~= seq![a[0]] + x);
                assert(b =~= seq![b[0]] + y);
            }
        }
    }
}

proof fn lemma_components_transitive(a: Seq<Seq<char>>, b: Seq<Seq<char>>, c: Seq<Seq<char>>)
    requires
        components_lt(a, b),
        components_lt(b, c),
    ensures
        components_lt(a, c),
    decreases a.len(),
{
    if a.len() > 0 {
        if a[0] == b[0] && b[0] == c[0] {
            lemma_components_transitive(
                a.subrange(1, a.len() as int),
                b.subrange(1, b.len() as int),
                c.subrange(1, c.len() as int),
            );
        } else if a[0] != b[0] && b[0] != c[0] {
            lemma_component_order(a[0], b[0], c[0]);
            lemma_component_order(c[0], b[0], a[0]);
        }
    }
}

/// What the order looks at.
spec fn same_rank(a: SdkCallView, b: SdkCallView) -> bool {
    a.name == b.name && (match (call_location(a), call_location(b)) {
        (None, None) => true,
        (Some(x), Some(y)) => path_components(x.file_path) == path_components(y.file_path)
            && x.start_position == y.start_position && x.end_position == y.end_position,
        _ => false,
    })
}

proof fn lemma_call_trichotomy(a: SdkCallView, b: SdkCallView)
    ensures
        same_rank(a, b) || call_lt(a, b) || call_lt(b, a),
        same_rank(a, b) ==> !call_lt(a, b) && !call_lt(b, a),
{
    lemma_text_lt_total(a.name, b.name);
    lemma_text_lt_irreflexive(a.name);
    match (call_location(a), call_location(b)) {
        (Some(x), Some(y)) => {
            lemma_components_total(path_components(x.file_path), path_components(y.file_path));
            lemma_components_irreflexive(path_components(x.file_path));
        },
        _ => {},
    }
}

proof fn lemma_call_transitive(a: SdkCallView, b: SdkCallView, c: SdkCallView)
    requires
        call_lt(a, b),
        call_lt(b, c),
    ensures
        call_lt(a, c),
{
    if text_lt(a.name, b.name) && text_lt(b.name, c.name) {
        lemma_text_lt_transitive(a.name, b.name, c.name);
    } else if a.name == b.name && b.name == c.name {
        match (call_location(a), call_location(b), call_location(c)) {
            (Some(x), Some(y), Some(z)) => {
                let p = path_components(x.file_path);
                let q = path_components(y.file_path);
                let r = path_components(z.file_path);
                if components_lt(p, q) && components_lt(q, r) {
                    lemma_components_transitive(p, q, r);
                }
            },
            _ => {},
        }
    }
}

proof fn lemma_same_rank_left(a: SdkCallView, b: SdkCallView, c: SdkCallView)
    requires
        same_rank(a, b),
    ensures
        call_lt(a, c) == call_lt(b, c),
        call_lt(c, a) == call_lt(c, b),
{
}

/// The order of calls is a strict weak order.
pub proof fn calls_are_ordered()
    ensures
        is_weak_order(order_of::<SdkMethodCall>()),
{
    let lt = order_of::<SdkMethodCall>();
    assert forall|a: SdkCallView| !(#[trigger] lt(a, a)) by {
        lemma_call_trichotomy(a, a);
    }
    assert forall|a: SdkCallView, b: SdkCallView, c: SdkCallView| #[trigger]
        lt(a, b) && #[trigger] lt(b, c) implies lt(a, c) by {
        lemma_call_transitive(a, b, c);
    }
    assert forall|a: SdkCallView, b: SdkCallView, c: SdkCallView|
        !(#[trigger] lt(b, a)) && !(#[trigger] lt(c, b)) implies !lt(c, a) by {
        lemma_call_trichotomy(a, b);
        lemma_call_trichotomy(b, c);
        lemma_call_trichotomy(a, c);
        if same_rank(a, b) {
            lemma_same_rank_left(a, b, c);
        } else if same_rank(b, c) {
            lemma_same_rank_left(b, c, a);
        } else {
            lemma_call_transitive(a, b, c);
        }
        if lt(c, a) && lt(a, c) {
            lemma_call_transitive(a, c, a);
            lemma_call_trichotomy(a, a);
        }
    }
}

/// Calls of one rank have one name and lie at one place of one file.
pub proof fn ranks_share_their_place(a: SdkCallView, b: SdkCallView)
    requires
        ranks_with(b, order_of::<SdkMethodCall>())(a),
    ensures
        a.name == b.name,
        match (call_location(a), call_location(b)) {
            (None, None) => true,
            (Some(x), Some(y)) => path_components(x.file_path) == path_components(y.file_path)
                && x.start_position == y.start_position && x.end_position == y.end_position,
            _ => false,
        },
{
    let lt = order_of::<SdkMethodCall>();
    assert(!lt(a, b) && !lt(b, a));
    lemma_call_trichotomy(a, b);
}

/// Sorted calls stand in the order of their names, and calls of the same name in the order of
/// their places.
pub proof fn sorted_calls_are_in_order(s: Seq<SdkCallView>)
    ensures
        in_order(
            stable_sorted(s, order_of::<SdkMethodCall>()),
            order_of::<SdkMethodCall>(),
        ),
{
    calls_are_ordered();
    sorting_puts_in_order(s, order_of::<SdkMethodCall>());
}

} // verus!
