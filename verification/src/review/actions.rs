//! The actions of generated policies, and what requires them.

use vstd::prelude::*;

use crate::order::{insert_text, sorted_set, sorted_set_of, strictly_sorted};
use crate::text::{
    contains_text, lemma_text_lt_irreflexive, lemma_text_lt_total, lemma_text_lt_transitive, less,
    opt_text, same, text_lt, texts,
};
use crate::text_map::TextMap;

verus! {

/// A statement of a generated policy.
#[derive(Debug)]
pub struct Statement {
    pub action: Vec<String>,
}

/// A generated policy. With one policy for each call, `id` is the expression of the call.
#[derive(Debug)]
pub struct IamPolicy {
    pub id: Option<String>,
    pub statement: Vec<Statement>,
}

#[derive(Debug)]
pub struct PolicyWithMetadata {
    pub policy: IamPolicy,
}

/// Why an operation is among those that a policy is for.
#[derive(Debug)]
pub enum OperationSource {
    /// It is called in the source code.
    Extracted,
    /// It was given by the user.
    Provided,
    /// A service calls it on behalf of the caller of the named operation.
    Fas(String),
}

#[derive(Debug)]
pub struct ExplainedOperation {
    pub source: OperationSource,
}

#[derive(Debug)]
pub struct Reason {
    pub operations: Vec<ExplainedOperation>,
}

/// Why an action is needed.
#[derive(Debug)]
pub struct Explanation {
    pub reasons: Vec<Reason>,
}

/// Why each of the actions is needed.
#[derive(Debug)]
pub struct Explanations {
    pub explanation_for_action: Vec<(String, Explanation)>,
}

/// Where Forward Access Sessions are documented.
pub const FAS_DOCS_URL: &'static str =
    "https://docs.aws.amazon.com/IAM/latest/UserGuide/access_forward_access_sessions.html";

/// The policies for a source file.
#[derive(Debug)]
pub struct GeneratePoliciesResult {
    pub policies: Vec<PolicyWithMetadata>,
    pub explanations: Option<Explanations>,
}

/// The actions of the statements, in their order.
pub open spec fn statement_actions(ss: Seq<Statement>) -> Seq<Seq<char>>
    decreases ss.len(),
{
    if ss.len() == 0 {
        Seq::empty()
    } else {
        statement_actions(ss.drop_last()) + texts(ss.last().action@)
    }
}

/// The actions of a policy, in their order.
pub open spec fn policy_actions(p: PolicyWithMetadata) -> Seq<Seq<char>> {
    statement_actions(p.policy.statement@)
}

/// The actions of all policies, in their order.
pub open spec fn all_actions(ps: Seq<PolicyWithMetadata>) -> Seq<Seq<char>>
    decreases ps.len(),
{
    if ps.len() == 0 {
        Seq::empty()
    } else {
        all_actions(ps.drop_last()) + policy_actions(ps.last())
    }
}

/// Appends the actions of a policy.
fn append_actions(out: &mut Vec<String>, p: &PolicyWithMetadata)
    ensures
        texts(final(out)@) == texts(old(out)@) + policy_actions(*p),
{
    let ghost start = texts(out@);
    let ghost ss = p.policy.statement@;
    let mut i: usize = 0;
    assert(ss.subrange(0, 0).len() == 0);
    assert(start + statement_actions(ss.subrange(0, 0)) =~= start);
    while i < p.policy.statement.len()
        invariant
            i <= p.policy.statement@.len(),
            ss == p.policy.statement@,
            texts(out@) == start + statement_actions(ss.subrange(0, i as int)),
        decreases p.policy.statement@.len() - i,
    {
        let ghost u = ss.subrange(0, i + 1);
        let ghost before = texts(out@);
        let ghost prior = statement_actions(ss.subrange(0, i as int));
        assert(u.drop_last() =~= ss.subrange(0, i as int));
        assert(u.last() == ss[i as int]);
        let mut more = crate::sdk::copy_texts(&p.policy.statement[i].action);
        let ghost added = texts(more@);
        out.append(&mut more);
        assert(texts(out@) =~= before + added);
        assert((start + prior) + added =~= start + (prior + added));
        i = i + 1;
    }
    assert(ss.subrange(0, ss.len() as int) =~= ss);
}

/// The actions of all policies in alphabetical order, each once.
pub fn extract_actions(result: &GeneratePoliciesResult) -> (r: Vec<String>)
    ensures
        sorted_set_of(texts(r@), all_actions(result.policies@)),
{
    let mut out: Vec<String> = Vec::new();
    let ghost ps = result.policies@;
    let mut i: usize = 0;
    assert(ps.subrange(0, 0).len() == 0);
    assert(texts(out@) =~= all_actions(ps.subrange(0, 0)));
    while i < result.policies.len()
        invariant
            i <= result.policies@.len(),
            ps == result.policies@,
            texts(out@) == all_actions(ps.subrange(0, i as int)),
        decreases result.policies@.len() - i,
    {
        let ghost u = ps.subrange(0, i + 1);
        assert(u.drop_last() =~= ps.subrange(0, i as int));
        assert(u.last() == ps[i as int]);
        append_actions(&mut out, &result.policies[i]);
        i = i + 1;
    }
    assert(ps.subrange(0, ps.len() as int) =~= ps);
    sorted_set(&out)
}

/// The actions that one call requires.
#[derive(Debug, PartialEq, Eq)]
pub struct ActionGroup {
    pub key: String,
    pub actions: Vec<String>,
}

pub struct ActionGroupView {
    pub key: Seq<char>,
    pub actions: Seq<Seq<char>>,
}

impl View for ActionGroup {
    type V = ActionGroupView;

    open spec fn view(&self) -> ActionGroupView {
        ActionGroupView { key: self.key@, actions: texts(self.actions@) }
    }
}

pub open spec fn group_views(v: Seq<ActionGroup>) -> Seq<ActionGroupView> {
    v.map_values(|g: ActionGroup| g@)
}

/// The groups are in the order of their keys, no key has two groups, and the actions of each group
/// are in alphabetical order, each once.
pub open spec fn groups_sorted(gs: Seq<ActionGroupView>) -> bool {
    &&& forall|i: int, j: int|
        0 <= i < j < gs.len() ==> text_lt(#[trigger] gs[i].key, #[trigger] gs[j].key)
    &&& forall|i: int| 0 <= i < gs.len() ==> strictly_sorted(#[trigger] gs[i].actions)
}

pub open spec fn has_group(gs: Seq<ActionGroupView>, key: Seq<char>) -> bool {
    exists|i: int| 0 <= i < gs.len() && #[trigger] gs[i].key == key
}

/// Whether the group of the key holds the action.
pub open spec fn in_group(gs: Seq<ActionGroupView>, key: Seq<char>, x: Seq<char>) -> bool {
    exists|i: int| 0 <= i < gs.len() && (#[trigger] gs[i]).key == key && gs[i].actions.contains(x)
}

/// Whether a policy with the given id holds the action, and the action is one of `among`.
pub open spec fn requires_action(
    ps: Seq<PolicyWithMetadata>,
    among: Seq<Seq<char>>,
    key: Seq<char>,
    x: Seq<char>,
) -> bool {
    among.contains(x) && exists|i: int|
        0 <= i < ps.len() && opt_text((#[trigger] ps[i]).policy.id) == Some(key) && policy_actions(
            ps[i],
        ).contains(x)
}

/// Whether some policy with the given id holds one of the actions `among`.
pub open spec fn requires_some(
    ps: Seq<PolicyWithMetadata>,
    among: Seq<Seq<char>>,
    key: Seq<char>,
) -> bool {
    exists|x: Seq<char>| #[trigger] requires_action(ps, among, key, x)
}

/// Whether two different calls require some of the actions, and all policies tell their call.
pub open spec fn is_groupable(ps: Seq<PolicyWithMetadata>, among: Seq<Seq<char>>) -> bool {
    &&& ps.len() > 1
    &&& forall|i: int| 0 <= i < ps.len() ==> (#[trigger] ps[i]).policy.id is Some
    &&& exists|k1: Seq<char>, k2: Seq<char>|
        k1 != k2 && #[trigger] requires_some(ps, among, k1) && #[trigger] requires_some(
            ps,
            among,
            k2,
        )
}

/// The groups hold for each call the actions of `among` that it requires, and nothing else.
pub open spec fn groups_are(
    gs: Seq<ActionGroupView>,
    ps: Seq<PolicyWithMetadata>,
    among: Seq<Seq<char>>,
) -> bool {
    &&& groups_sorted(gs)
    &&& forall|k: Seq<char>| #[trigger] has_group(gs, k) == requires_some(ps, among, k)
    &&& forall|k: Seq<char>, x: Seq<char>| #[trigger]
        in_group(gs, k, x) == requires_action(ps, among, k, x)
}

proof fn lemma_set_contains(s: Seq<Seq<char>>, x: Seq<char>)
    ensures
        s.to_set().contains(x) == s.contains(x),
{
}

/// Adds an action to the group of a key.
fn add_action(gs: &mut Vec<ActionGroup>, key: &str, action: String)
    requires
        groups_sorted(group_views(old(gs)@)),
    ensures
        groups_sorted(group_views(final(gs)@)),
        forall|k: Seq<char>| #[trigger]
            has_group(group_views(final(gs)@), k) == (has_group(group_views(old(gs)@), k) || k
                == key@),
        forall|k: Seq<char>, x: Seq<char>| #[trigger]
            in_group(group_views(final(gs)@), k, x) == (in_group(group_views(old(gs)@), k, x) || (k
                == key@ && x == action@)),
{
    let ghost s = group_views(gs@);
    let ghost text = action@;
    let mut i: usize = 0;
    while i < gs.len() && less(gs[i].key.as_str(), key)
        invariant
            i <= gs@.len(),
            gs@ == old(gs)@,
            s == group_views(gs@),
            groups_sorted(s),
            forall|j: int| 0 <= j < i ==> text_lt(#[trigger] s[j].key, key@),
        decreases gs@.len() - i,
    {
        assert(s[i as int].key == gs@[i as int].key@);
        i = i + 1;
    }
    if i < gs.len() && same(gs[i].key.as_str(), key) {
        let ghost old_group = gs@[i as int];
        assert(s[i as int] == old_group@);
        let mut g = gs.remove(i);
        assert(strictly_sorted(s[i as int].actions));
        assert(s[i as int].actions == texts(g.actions@));
        insert_text(&mut g.actions, action);
        gs.insert(i, g);
        proof {
            let u = group_views(gs@);
            assert(u =~= s.update(i as int, g@));
            assert(g@.key == key@);
            assert forall|x: Seq<char>| g@.actions.contains(x) == (old_group@.actions.contains(x)
                || x == text) by {
                lemma_set_contains(g@.actions, x);
                lemma_set_contains(old_group@.actions, x);
            }
            assert forall|a: int, b: int| 0 <= a < b < u.len() implies text_lt(
                #[trigger] u[a].key,
                #[trigger] u[b].key,
            ) by {
                assert(u[a].key == s[a].key);
                assert(u[b].key == s[b].key);
            }
            assert forall|k: Seq<char>| #[trigger] has_group(u, k) == (has_group(s, k) || k
                == key@) by {
                if has_group(u, k) {
                    let j = choose|j: int| 0 <= j < u.len() && #[trigger] u[j].key == k;
                    assert(s[j].key == k);
                }
                if has_group(s, k) {
                    let j = choose|j: int| 0 <= j < s.len() && #[trigger] s[j].key == k;
                    assert(u[j].key == k);
                }
                assert(u[i as int].key == key@);
            }
            assert forall|k: Seq<char>, x: Seq<char>| #[trigger] in_group(u, k, x) == (in_group(
                s,
                k,
                x,
            ) || (k == key@ && x == text)) by {
                if in_group(u, k, x) {
                    let j = choose|j: int|
                        0 <= j < u.len() && (#[trigger] u[j]).key == k && u[j].actions.contains(x);
                    assert(s[j].key == k);
                    if j != i {
                        assert(u[j] == s[j]);
                    }
                }
                if in_group(s, k, x) {
                    let j = choose|j: int|
                        0 <= j < s.len() && (#[trigger] s[j]).key == k && s[j].actions.contains(x);
                    assert(u[j].key == k);
                    assert(u[j].actions.contains(x));
                }
                assert(u[i as int].key == key@ && u[i as int].actions.contains(text));
            }
        }
    } else {
        let actions = vec![action];
        assert(texts(actions@) =~= seq![text]);
        let g = ActionGroup { key: key.to_string(), actions };
        gs.insert(i, g);
        proof {
            let u = group_views(gs@);
            assert(u =~= s.insert(i as int, g@));
            if i < s.len() {
                assert(s[i as int].key == old(gs)@[i as int].key@);
                lemma_text_lt_total(s[i as int].key, key@);
            }
            assert forall|a: int, b: int| 0 <= a < b < u.len() implies text_lt(
                #[trigger] u[a].key,
                #[trigger] u[b].key,
            ) by {
                if a < i && b < i {
                    assert(text_lt(s[a].key, s[b].key));
                } else if a < i && b > i {
                    assert(text_lt(s[a].key, s[b - 1].key));
                } else if a > i {
                    assert(text_lt(s[a - 1].key, s[b - 1].key));
                } else if a == i && b - 1 > i {
                    assert(text_lt(s[i as int].key, s[b - 1].key));
                    lemma_text_lt_transitive(key@, s[i as int].key, s[b - 1].key);
                }
            }
            assert forall|a: int| 0 <= a < u.len() implies strictly_sorted(
                #[trigger] u[a].actions,
            ) by {
                if a < i {
                    assert(u[a] == s[a]);
                } else if a > i {
                    assert(u[a] == s[a - 1]);
                }
            }
            assert forall|k: Seq<char>| #[trigger] has_group(u, k) == (has_group(s, k) || k
                == key@) by {
                if has_group(u, k) {
                    let j = choose|j: int| 0 <= j < u.len() && #[trigger] u[j].key == k;
                    if j < i {
                        assert(s[j].key == k);
                    } else if j > i {
                        assert(s[j - 1].key == k);
                    }
                }
                if has_group(s, k) {
                    let j = choose|j: int| 0 <= j < s.len() && #[trigger] s[j].key == k;
                    if j < i {
                        assert(u[j].key == k);
                    } else {
                        assert(u[j + 1].key == k);
                    }
                }
                assert(u[i as int].key == key@);
            }
            assert(g@.actions[0] == text);
            assert forall|k: Seq<char>, x: Seq<char>| #[trigger] in_group(u, k, x) == (in_group(
                s,
                k,
                x,
            ) || (k == key@ && x == text)) by {
                if in_group(u, k, x) {
                    let j = choose|j: int|
                        0 <= j < u.len() && (#[trigger] u[j]).key == k && u[j].actions.contains(x);
                    if j < i {
                        assert(s[j] == u[j]);
                    } else if j > i {
                        assert(s[j - 1] == u[j]);
                    }
                }
                if in_group(s, k, x) {
                    let j = choose|j: int|
                        0 <= j < s.len() && (#[trigger] s[j]).key == k && s[j].actions.contains(x);
                    if j < i {
                        assert(u[j] == s[j]);
                    } else {
                        assert(u[j + 1] == s[j]);
                    }
                }
                assert(u[i as int].key == key@ && u[i as int].actions.contains(text));
            }
        }
    }
}

/// Adds those of the actions to the group of a key that are among the given ones.
fn add_actions(gs: &mut Vec<ActionGroup>, key: &str, actions: &Vec<String>, among: &Vec<String>)
    requires
        groups_sorted(group_views(old(gs)@)),
    ensures
        groups_sorted(group_views(final(gs)@)),
        forall|k: Seq<char>| #[trigger]
            has_group(group_views(final(gs)@), k) == (has_group(group_views(old(gs)@), k) || (k
                == key@ && exists|x: Seq<char>| #[trigger]
                texts(actions@).contains(x) && texts(among@).contains(x))),
        forall|k: Seq<char>, x: Seq<char>| #[trigger]
            in_group(group_views(final(gs)@), k, x) == (in_group(group_views(old(gs)@), k, x) || (k
                == key@ && texts(actions@).contains(x) && texts(among@).contains(x))),
{
    let ghost start = group_views(gs@);
    let ghost s = texts(actions@);
    let ghost a = texts(among@);
    let mut i: usize = 0;
    while i < actions.len()
        invariant
            i <= actions@.len(),
            s == texts(actions@),
            a == texts(among@),
            groups_sorted(group_views(gs@)),
            forall|k: Seq<char>| #[trigger]
                has_group(group_views(gs@), k) == (has_group(start, k) || (k == key@ && exists|
                    j: int,
                | 0 <= j < i && a.contains(#[trigger] s[j]))),
            forall|k: Seq<char>, x: Seq<char>| #[trigger]
                in_group(group_views(gs@), k, x) == (in_group(start, k, x) || (k == key@
                    && a.contains(x) && exists|j: int| 0 <= j < i && #[trigger] s[j] == x)),
        decreases actions@.len() - i,
    {
        assert(s[i as int] == actions@[i as int]@);
        let ghost before = group_views(gs@);
        let member = contains_text(among, actions[i].as_str());
        if member {
            add_action(gs, key, actions[i].clone());
        }
        proof {
            let now = group_views(gs@);
            assert forall|k: Seq<char>| #[trigger] has_group(now, k) == (has_group(start, k) || (k
                == key@ && exists|j: int| 0 <= j < i + 1 && a.contains(#[trigger] s[j]))) by {
                assert(has_group(now, k) == (has_group(before, k) || (member && k == key@)));
                if member {
                    assert(a.contains(s[i as int]));
                }
            }
            assert forall|k: Seq<char>, x: Seq<char>| #[trigger] in_group(now, k, x) == (in_group(
                start,
                k,
                x,
            ) || (k == key@ && a.contains(x) && exists|j: int|
                0 <= j < i + 1 && #[trigger] s[j] == x)) by {
                assert(in_group(now, k, x) == (in_group(before, k, x) || (member && k == key@ && x
                    == s[i as int])));
            }
        }
        i = i + 1;
    }
    proof {
        let now = group_views(gs@);
        assert forall|k: Seq<char>| #[trigger] has_group(now, k) == (has_group(start, k) || (k
            == key@ && exists|x: Seq<char>| #[trigger] s.contains(x) && a.contains(x))) by {
            if exists|j: int| 0 <= j < i && a.contains(#[trigger] s[j]) {
                let j = choose|j: int| 0 <= j < i && a.contains(#[trigger] s[j]);
                assert(s.contains(s[j]));
            }
            if exists|x: Seq<char>| #[trigger] s.contains(x) && a.contains(x) {
                let x = choose|x: Seq<char>| #[trigger] s.contains(x) && a.contains(x);
                let j = choose|j: int| 0 <= j < s.len() && s[j] == x;
                assert(a.contains(s[j]));
            }
        }
        assert forall|k: Seq<char>, x: Seq<char>| #[trigger] in_group(now, k, x) == (in_group(
            start,
            k,
            x,
        ) || (k == key@ && s.contains(x) && a.contains(x))) by {
            if s.contains(x) {
                let j = choose|j: int| 0 <= j < s.len() && s[j] == x;
                assert(s[j] == x);
            }
        }
    }
}

/// The actions of `among` by the calls that require them, if two different calls require some.
pub fn extract_individual_action_groups(
    result: &GeneratePoliciesResult,
    among: &Vec<String>,
) -> (r: Option<Vec<ActionGroup>>)
    ensures
        match r {
            Some(gs) => is_groupable(result.policies@, texts(among@)) && groups_are(
                group_views(gs@),
                result.policies@,
                texts(among@),
            ),
            None => !is_groupable(result.policies@, texts(among@)),
        },
{
    if result.policies.len() <= 1 {
        return None;
    }
    let ghost ps = result.policies@;
    let ghost a = texts(among@);
    let mut gs: Vec<ActionGroup> = Vec::new();
    let mut i: usize = 0;
    assert(group_views(gs@) =~= Seq::<ActionGroupView>::empty());
    while i < result.policies.len()
        invariant
            i <= result.policies@.len(),
            ps == result.policies@,
            a == texts(among@),
            forall|j: int| 0 <= j < i ==> (#[trigger] ps[j]).policy.id is Some,
            groups_sorted(group_views(gs@)),
            forall|k: Seq<char>| #[trigger]
                has_group(group_views(gs@), k) == requires_some(ps.subrange(0, i as int), a, k),
            forall|k: Seq<char>, x: Seq<char>| #[trigger]
                in_group(group_views(gs@), k, x) == requires_action(
                    ps.subrange(0, i as int),
                    a,
                    k,
                    x,
                ),
        decreases result.policies@.len() - i,
    {
        let p = &result.policies[i];
        let key = match &p.policy.id {
            Some(key) => key,
            None => {
                assert(ps[i as int].policy.id is None);
                return None;
            },
        };
        let mut actions: Vec<String> = Vec::new();
        append_actions(&mut actions, p);
        assert(texts(actions@) =~= policy_actions(*p));
        let ghost before = group_views(gs@);
        add_actions(&mut gs, key.as_str(), &actions, among);
        proof {
            let t = ps.subrange(0, i as int);
            let u = ps.subrange(0, i + 1);
            let now = group_views(gs@);
            let pa = policy_actions(*p);
            assert forall|k: Seq<char>, x: Seq<char>| #[trigger] requires_action(u, a, k, x) == (
            requires_action(t, a, k, x) || (k == key@ && pa.contains(x) && a.contains(x))) by {
                if requires_action(u, a, k, x) {
                    let j = choose|j: int|
                        0 <= j < u.len() && opt_text((#[trigger] u[j]).policy.id) == Some(k)
                            && policy_actions(u[j]).contains(x);
                    if j < i {
                        assert(t[j] == u[j]);
                    } else {
                        assert(u[j] == *p);
                    }
                }
                if requires_action(t, a, k, x) {
                    let j = choose|j: int|
                        0 <= j < t.len() && opt_text((#[trigger] t[j]).policy.id) == Some(k)
                            && policy_actions(t[j]).contains(x);
                    assert(u[j] == t[j]);
                }
                assert(u[i as int] == *p);
            }
            assert forall|k: Seq<char>| #[trigger] has_group(now, k) == requires_some(u, a, k) by {
                if has_group(now, k) {
                    if has_group(before, k) {
                        let x = choose|x: Seq<char>| #[trigger] requires_action(t, a, k, x);
                        assert(requires_action(u, a, k, x));
                    } else {
                        let x = choose|x: Seq<char>| #[trigger] pa.contains(x) && a.contains(x);
                        assert(requires_action(u, a, k, x));
                    }
                }
                if requires_some(u, a, k) {
                    let x = choose|x: Seq<char>| #[trigger] requires_action(u, a, k, x);
                    if requires_action(t, a, k, x) {
                        assert(requires_some(t, a, k));
                        assert(has_group(before, k));
                    } else {
                        assert(pa.contains(x) && a.contains(x));
                    }
                }
            }
        }
        i = i + 1;
    }
    assert(ps.subrange(0, ps.len() as int) =~= ps);
    let ghost g = group_views(gs@);
    if gs.len() <= 1 {
        proof {
            if is_groupable(ps, a) {
                let (k1, k2) = choose|k1: Seq<char>, k2: Seq<char>|
                    k1 != k2 && #[trigger] requires_some(ps, a, k1) && #[trigger] requires_some(
                        ps,
                        a,
                        k2,
                    );
                assert(has_group(g, k1));
                assert(has_group(g, k2));
                let i1 = choose|j: int| 0 <= j < g.len() && #[trigger] g[j].key == k1;
                let i2 = choose|j: int| 0 <= j < g.len() && #[trigger] g[j].key == k2;
                assert(i1 == i2);
            }
        }
        return None;
    }
    proof {
        assert(text_lt(g[0].key, g[1].key));
        lemma_text_lt_irreflexive(g[0].key);
        assert(has_group(g, g[0].key));
        assert(has_group(g, g[1].key));
        assert(requires_some(ps, a, g[0].key));
        assert(requires_some(ps, a, g[1].key));
    }
    Some(gs)
}

/// Whether an operation is among the reasons because a service calls it on behalf of the caller.
pub open spec fn has_fas(e: Explanation) -> bool {
    exists|i: int, j: int|
        0 <= i < e.reasons@.len() && 0 <= j < e.reasons@[i].operations@.len() && (
        #[trigger] e.reasons@[i].operations@[j]).source is Fas
}

/// Whether an operation is among the reasons because a service calls it on behalf of the caller.
pub fn explanation_has_fas(e: &Explanation) -> (r: bool)
    ensures
        r == has_fas(*e),
{
    let mut i: usize = 0;
    while i < e.reasons.len()
        invariant
            i <= e.reasons@.len(),
            forall|a: int, b: int|
                0 <= a < i && 0 <= b < e.reasons@[a].operations@.len() ==> !((
                #[trigger] e.reasons@[a].operations@[b]).source is Fas),
        decreases e.reasons@.len() - i,
    {
        let reason = &e.reasons[i];
        let mut j: usize = 0;
        while j < reason.operations.len()
            invariant
                j <= reason.operations@.len(),
                i < e.reasons@.len(),
                *reason == e.reasons@[i as int],
                forall|b: int|
                    0 <= b < j ==> !((#[trigger] e.reasons@[i as int].operations@[b]).source is Fas),
            decreases reason.operations@.len() - j,
        {
            match &reason.operations[j].source {
                OperationSource::Fas(_) => {
                    assert(e.reasons@[i as int].operations@[j as int].source is Fas);
                    return true;
                },
                _ => {},
            }
            j = j + 1;
        }
        i = i + 1;
    }
    false
}

/// The text about an action that is needed for Forward Access Sessions.
pub open spec fn fas_text() -> Seq<char> {
    "needed for [Forward Access Session]("@ + FAS_DOCS_URL@ + ") permissions"@
}

/// Whether the explanations say that the action is needed for Forward Access Sessions.
pub open spec fn is_fas_action(es: Seq<(String, Explanation)>, action: Seq<char>) -> bool {
    exists|i: int| 0 <= i < es.len() && (#[trigger] es[i]).0@ == action && has_fas(es[i].1)
}

/// The explanations of a result; none if it has none.
pub open spec fn explained(result: GeneratePoliciesResult) -> Seq<(String, Explanation)> {
    match result.explanations {
        Some(e) => e.explanation_for_action@,
        None => Seq::empty(),
    }
}

/// Texts about the actions that are not called directly but needed for Forward Access Sessions.
pub fn extract_explanations(result: &GeneratePoliciesResult) -> (r: TextMap<String>)
    ensures
        forall|k: Seq<char>| #[trigger]
            r@.contains_key(k) == is_fas_action(explained(*result), k),
        forall|k: Seq<char>| r@.contains_key(k) ==> (#[trigger] r@[k])@ == fas_text(),
{
    let mut map: TextMap<String> = TextMap::new();
    match &result.explanations {
        None => {},
        Some(e) => {
            let ghost es = e.explanation_for_action@;
            let mut i: usize = 0;
            while i < e.explanation_for_action.len()
                invariant
                    i <= e.explanation_for_action@.len(),
                    es == e.explanation_for_action@,
                    forall|k: Seq<char>| #[trigger]
                        map@.contains_key(k) == is_fas_action(es.subrange(0, i as int), k),
                    forall|k: Seq<char>| map@.contains_key(k) ==> (#[trigger] map@[k])@ == fas_text(),
                decreases e.explanation_for_action@.len() - i,
            {
                let entry = &e.explanation_for_action[i];
                let ghost before = map@;
                let fas = explanation_has_fas(&entry.1);
                if fas {
                    let mut text = "needed for [Forward Access Session](".to_string();
                    text.append(FAS_DOCS_URL);
                    text.append(") permissions");
                    map.insert(entry.0.clone(), text);
                }
                proof {
                    let t = es.subrange(0, i as int);
                    let u = es.subrange(0, i + 1);
                    assert forall|k: Seq<char>| #[trigger] map@.contains_key(k) == is_fas_action(
                        u,
                        k,
                    ) by {
                        assert(before.contains_key(k) == is_fas_action(t, k));
                        if is_fas_action(u, k) {
                            let j = choose|j: int|
                                0 <= j < u.len() && (#[trigger] u[j]).0@ == k && has_fas(u[j].1);
                            if j < i {
                                assert(t[j] == u[j]);
                            }
                        }
                        if is_fas_action(t, k) {
                            let j = choose|j: int|
                                0 <= j < t.len() && (#[trigger] t[j]).0@ == k && has_fas(t[j].1);
                            assert(u[j] == t[j]);
                        }
                        assert(u[i as int] == *entry);
                    }
                    assert forall|k: Seq<char>| map@.contains_key(k) implies (#[trigger] map@[k])@
                        == fas_text() by {
                        if !(fas && k == entry.0@) {
                            assert(before.contains_key(k));
                            assert(before[k]@ == fas_text());
                        }
                    }
                }
                i = i + 1;
            }
            assert(es.subrange(0, es.len() as int) =~= es);
        },
    }
    map
}

} // verus!
