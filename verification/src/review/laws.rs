//! What holds of review comments.

use vstd::prelude::*;
use vstd::seq_lib::{lemma_seq_concat_contains_all_elements, lemma_seq_contains_after_push};

use crate::review::actions::{
    all_actions, explained, groups_are, has_fas, has_group, in_group, is_fas_action, is_groupable,
    policy_actions, requires_action, requires_some, statement_actions, ActionGroupView, Explanation,
    GeneratePoliciesResult, PolicyWithMetadata, Statement,
};
use crate::review::comment::{
    action_item, action_list, added_section, comment_body, comment_parts, group_text, group_texts,
    removed_section,
};
use crate::review::diff::{
    after_line, after_lines, hunk_start, is_preamble, leading_part, lines_of_file, DiffState,
};
use crate::review::generate::{
    are_comments_on, call_lines, fas_reasons, first_shared, gone_actions, is_anchor, is_comment_on,
    is_first_line, is_skipped, is_unchanged, language_of_extension, language_of_path, lists,
    new_actions, result_actions, supported, FileAnalysis, Language, ReviewComment, Version,
};
use crate::sdk::SdkMethodCall;
use crate::text::{
    decimal, find_from, joined, lemma_find_from, lemma_find_is, opt_text, text_lt, texts,
};
use crate::text_laws::{
    numbers_are_read_back, prefixes_stand_before_the_rest, spaces_around_are_trimmed,
    texts_are_found_at_their_start, texts_without_prefix,
};

verus! {

proof fn lemma_statement_actions(ss: Seq<Statement>, x: Seq<char>)
    ensures
        statement_actions(ss).contains(x) <==> exists|j: int, k: int|
            #![trigger ss[j].action@[k]]
            0 <= j < ss.len() && 0 <= k < ss[j].action@.len() && ss[j].action@[k]@ == x,
    decreases ss.len(),
{
    broadcast use lemma_seq_concat_contains_all_elements;

    if ss.len() > 0 {
        let t = ss.drop_last();
        let last = ss[ss.len() - 1];
        lemma_statement_actions(t, x);
        assert(ss.last() == last);
        if statement_actions(t).contains(x) {
            let (j, k) = choose|j: int, k: int|
                #![trigger t[j].action@[k]]
                0 <= j < t.len() && 0 <= k < t[j].action@.len() && t[j].action@[k]@ == x;
            assert(ss[j].action@[k]@ == x);
        }
        if texts(last.action@).contains(x) {
            let k = choose|k: int| 0 <= k < last.action@.len() && texts(last.action@)[k] == x;
            assert(ss[ss.len() - 1].action@[k]@ == x);
        }
        if exists|j: int, k: int|
            #![trigger ss[j].action@[k]]
            0 <= j < ss.len() && 0 <= k < ss[j].action@.len() && ss[j].action@[k]@ == x {
            let (j, k) = choose|j: int, k: int|
                #![trigger ss[j].action@[k]]
                0 <= j < ss.len() && 0 <= k < ss[j].action@.len() && ss[j].action@[k]@ == x;
            if j < t.len() {
                assert(t[j].action@[k]@ == x);
            } else {
                assert(texts(last.action@)[k] == x);
            }
        }
    }
}

/// An action is one of a policy exactly if one of its statements lists it, at whatever place.
pub proof fn every_statement_has_its_actions(p: PolicyWithMetadata, x: Seq<char>)
    ensures
        policy_actions(p).contains(x) <==> exists|j: int, k: int|
            #![trigger p.policy.statement@[j].action@[k]]
            0 <= j < p.policy.statement@.len() && 0 <= k < p.policy.statement@[j].action@.len()
                && p.policy.statement@[j].action@[k]@ == x,
{
    lemma_statement_actions(p.policy.statement@, x);
}

/// An action is among the actions of a result exactly if some statement of some policy lists it.
pub proof fn every_policy_has_its_actions(ps: Seq<PolicyWithMetadata>, x: Seq<char>)
    ensures
        all_actions(ps).contains(x) <==> exists|i: int, j: int, k: int|
            #![trigger ps[i].policy.statement@[j].action@[k]]
            0 <= i < ps.len() && 0 <= j < ps[i].policy.statement@.len() && 0 <= k
                < ps[i].policy.statement@[j].action@.len()
                && ps[i].policy.statement@[j].action@[k]@ == x,
    decreases ps.len(),
{
    broadcast use lemma_seq_concat_contains_all_elements;

    if ps.len() > 0 {
        let t = ps.drop_last();
        let last = ps[ps.len() - 1];
        every_policy_has_its_actions(t, x);
        every_statement_has_its_actions(last, x);
        assert(ps.last() == last);
        if all_actions(t).contains(x) {
            let (i, j, k) = choose|i: int, j: int, k: int|
                #![trigger t[i].policy.statement@[j].action@[k]]
                0 <= i < t.len() && 0 <= j < t[i].policy.statement@.len() && 0 <= k
                    < t[i].policy.statement@[j].action@.len()
                    && t[i].policy.statement@[j].action@[k]@ == x;
            assert(ps[i].policy.statement@[j].action@[k]@ == x);
        }
        if policy_actions(last).contains(x) {
            let (j, k) = choose|j: int, k: int|
                #![trigger last.policy.statement@[j].action@[k]]
                0 <= j < last.policy.statement@.len() && 0 <= k
                    < last.policy.statement@[j].action@.len()
                    && last.policy.statement@[j].action@[k]@ == x;
            assert(ps[ps.len() - 1].policy.statement@[j].action@[k]@ == x);
        }
        if exists|i: int, j: int, k: int|
            #![trigger ps[i].policy.statement@[j].action@[k]]
            0 <= i < ps.len() && 0 <= j < ps[i].policy.statement@.len() && 0 <= k
                < ps[i].policy.statement@[j].action@.len()
                && ps[i].policy.statement@[j].action@[k]@ == x {
            let (i, j, k) = choose|i: int, j: int, k: int|
                #![trigger ps[i].policy.statement@[j].action@[k]]
                0 <= i < ps.len() && 0 <= j < ps[i].policy.statement@.len() && 0 <= k
                    < ps[i].policy.statement@[j].action@.len()
                    && ps[i].policy.statement@[j].action@[k]@ == x;
            if i < t.len() {
                assert(t[i].policy.statement@[j].action@[k]@ == x);
            } else {
                assert(last.policy.statement@[j].action@[k]@ == x);
            }
        }
    }
}

/// An action is new if the head has it and the base does not, and gone the other way round. A version
/// that is missing has no actions.
pub proof fn actions_are_new_or_gone(a: FileAnalysis, x: Seq<char>)
    ensures
        new_actions(a).contains(x) <==> result_actions(a.head).contains(x) && !result_actions(
            a.base,
        ).contains(x),
        gone_actions(a).contains(x) <==> result_actions(a.base).contains(x) && !result_actions(
            a.head,
        ).contains(x),
        a.head is Missing ==> !result_actions(a.head).contains(x),
        a.base is Missing ==> !result_actions(a.base).contains(x),
        a.head matches Version::Analysed(r) ==> result_actions(a.head) == all_actions(r.policies@),
        a.base matches Version::Analysed(r) ==> result_actions(a.base) == all_actions(r.policies@),
{
    let h = result_actions(a.head);
    let b = result_actions(a.base);
    assert(h.to_set().contains(x) == h.contains(x));
    assert(b.to_set().contains(x) == b.contains(x));
}

/// A file is skipped exactly if the analysis of one of its versions failed, and passed over without
/// a comment otherwise exactly if no action is new or gone.
pub proof fn files_with_changes_need_comments(a: FileAnalysis)
    ensures
        is_skipped(a) <==> a.base is Failed || a.head is Failed,
        is_unchanged(a) <==> forall|x: Seq<char>|
            result_actions(a.base).contains(x) <==> #[trigger] result_actions(a.head).contains(x),
{
    let h = result_actions(a.head);
    let b = result_actions(a.base);
    assert forall|x: Seq<char>| h.to_set().contains(x) == #[trigger] h.contains(x) by {}
    assert forall|x: Seq<char>| b.to_set().contains(x) == #[trigger] b.contains(x) by {}
    if is_unchanged(a) {
        assert forall|x: Seq<char>| b.contains(x) <==> #[trigger] h.contains(x) by {
            assert(!new_actions(a).contains(x));
            assert(!gone_actions(a).contains(x));
        }
    } else if forall|x: Seq<char>| b.contains(x) <==> #[trigger] h.contains(x) {
        assert forall|x: Seq<char>| !new_actions(a).contains(x) && !gone_actions(a).contains(x) by {
            assert(h.contains(x) == b.contains(x));
        }
        assert(new_actions(a) =~= Set::empty());
        assert(gone_actions(a) =~= Set::empty());
    }
}

/// A group holds an action exactly if the action is among those asked for and a policy with the key
/// of the group lists it.
pub proof fn groups_hold_the_actions_of_their_key(
    gs: Seq<ActionGroupView>,
    ps: Seq<PolicyWithMetadata>,
    among: Seq<Seq<char>>,
    key: Seq<char>,
    x: Seq<char>,
)
    requires
        groups_are(gs, ps, among),
    ensures
        (exists|g: int|
            0 <= g < gs.len() && (#[trigger] gs[g]).key == key && gs[g].actions.contains(x)) <==> (
        among.contains(x) && exists|i: int|
            0 <= i < ps.len() && (#[trigger] ps[i]).policy.id is Some && ps[i].policy.id->0@ == key
                && policy_actions(ps[i]).contains(x)),
        (exists|g: int| 0 <= g < gs.len() && (#[trigger] gs[g]).key == key) ==> exists|y: Seq<char>|
            among.contains(y) && exists|i: int|
                0 <= i < ps.len() && (#[trigger] ps[i]).policy.id is Some && ps[i].policy.id->0@
                    == key && #[trigger] policy_actions(ps[i]).contains(y),
        forall|g: int, h: int| 0 <= g < h < gs.len() ==> (#[trigger] gs[g]).key != (#[trigger] gs[h]).key,
        forall|g: int, h: int|
            0 <= g < h < gs.len() ==> text_lt((#[trigger] gs[g]).key, (#[trigger] gs[h]).key),
        forall|g: int, i: int, j: int|
            #![trigger gs[g].actions[i], gs[g].actions[j]]
            0 <= g < gs.len() && 0 <= i < j < gs[g].actions.len() ==> text_lt(
                gs[g].actions[i],
                gs[g].actions[j],
            ),
{
    assert(in_group(gs, key, x) == requires_action(ps, among, key, x));
    assert(has_group(gs, key) == requires_some(ps, among, key));
    if exists|g: int|
        0 <= g < gs.len() && (#[trigger] gs[g]).key == key && gs[g].actions.contains(x) {
        assert(in_group(gs, key, x));
        assert(requires_action(ps, among, key, x));
        let i = choose|i: int|
            0 <= i < ps.len() && opt_text((#[trigger] ps[i]).policy.id) == Some(key)
                && policy_actions(ps[i]).contains(x);
        assert(ps[i].policy.id is Some && ps[i].policy.id->0@ == key);
    }
    if among.contains(x) && exists|i: int|
        0 <= i < ps.len() && (#[trigger] ps[i]).policy.id is Some && ps[i].policy.id->0@ == key
            && policy_actions(ps[i]).contains(x) {
        let i = choose|i: int|
            0 <= i < ps.len() && (#[trigger] ps[i]).policy.id is Some && ps[i].policy.id->0@ == key
                && policy_actions(ps[i]).contains(x);
        assert(opt_text(ps[i].policy.id) == Some(key));
        assert(requires_action(ps, among, key, x));
        assert(in_group(gs, key, x));
    }
    if exists|g: int| 0 <= g < gs.len() && (#[trigger] gs[g]).key == key {
        let g = choose|g: int| 0 <= g < gs.len() && (#[trigger] gs[g]).key == key;
        assert(gs[g].key == key);
        assert(has_group(gs, key));
        let y = choose|y: Seq<char>| #[trigger] requires_action(ps, among, key, y);
        let i = choose|i: int|
            0 <= i < ps.len() && opt_text((#[trigger] ps[i]).policy.id) == Some(key)
                && policy_actions(ps[i]).contains(y);
        assert(policy_actions(ps[i]).contains(y));
    }
    assert forall|g: int, h: int| 0 <= g < h < gs.len() implies (#[trigger] gs[g]).key != (
    #[trigger] gs[h]).key by {
        assert(text_lt(gs[g].key, gs[h].key));
        crate::text::lemma_text_lt_irreflexive(gs[g].key);
    }
    assert forall|g: int, i: int, j: int|
        #![trigger gs[g].actions[i], gs[g].actions[j]]
        0 <= g < gs.len() && 0 <= i < j < gs[g].actions.len() implies text_lt(
        gs[g].actions[i],
        gs[g].actions[j],
    ) by {
        assert(crate::order::strictly_sorted(gs[g].actions));
    }
}

/// Actions are grouped exactly if there are several policies, all with a key, and at least two keys
/// have an action among those asked for.
pub proof fn two_keys_make_groups(
    ps: Seq<PolicyWithMetadata>,
    among: Seq<Seq<char>>,
    i: int,
    j: int,
    x: Seq<char>,
    y: Seq<char>,
)
    requires
        0 <= i < ps.len(),
        0 <= j < ps.len(),
        forall|k: int| 0 <= k < ps.len() ==> (#[trigger] ps[k]).policy.id is Some,
        ps[i].policy.id->0@ != ps[j].policy.id->0@,
        policy_actions(ps[i]).contains(x),
        policy_actions(ps[j]).contains(y),
        among.contains(x),
        among.contains(y),
    ensures
        is_groupable(ps, among),
{
    let k1 = ps[i].policy.id->0@;
    let k2 = ps[j].policy.id->0@;
    assert(opt_text(ps[i].policy.id) == Some(k1));
    assert(opt_text(ps[j].policy.id) == Some(k2));
    assert(requires_action(ps, among, k1, x));
    assert(requires_action(ps, among, k2, y));
    assert(requires_some(ps, among, k1) && requires_some(ps, among, k2));
}

/// Policies without a key, or of one key only, make no groups.
pub proof fn one_key_makes_no_groups(ps: Seq<PolicyWithMetadata>, among: Seq<Seq<char>>, i: int)
    requires
        0 <= i < ps.len(),
        ps[i].policy.id is None || forall|k: int|
            0 <= k < ps.len() && (#[trigger] ps[k]).policy.id is Some ==> ps[k].policy.id->0@
                == ps[i].policy.id->0@,
    ensures
        !is_groupable(ps, among),
{
    if is_groupable(ps, among) {
        assert(ps[i].policy.id is Some);
        let (k1, k2) = choose|k1: Seq<char>, k2: Seq<char>|
            k1 != k2 && #[trigger] requires_some(ps, among, k1) && #[trigger] requires_some(
                ps,
                among,
                k2,
            );
        let x = choose|x: Seq<char>| #[trigger] requires_action(ps, among, k1, x);
        let y = choose|y: Seq<char>| #[trigger] requires_action(ps, among, k2, y);
        let a = choose|a: int|
            0 <= a < ps.len() && opt_text((#[trigger] ps[a]).policy.id) == Some(k1)
                && policy_actions(ps[a]).contains(x);
        let b = choose|b: int|
            0 <= b < ps.len() && opt_text((#[trigger] ps[b]).policy.id) == Some(k2)
                && policy_actions(ps[b]).contains(y);
        assert(ps[a].policy.id->0@ == k1 && ps[b].policy.id->0@ == k2);
    }
}

/// An action is explained by forward access sessions exactly if one of the explanations for it has,
/// in whichever reason, such an operation.
pub proof fn every_reason_is_looked_at(
    result: GeneratePoliciesResult,
    es: Seq<(String, Explanation)>,
    x: Seq<char>,
)
    requires
        match result.explanations {
            Some(e) => e.explanation_for_action@ == es,
            None => es.len() == 0,
        },
    ensures
        is_fas_action(explained(result), x) <==> exists|n: int, i: int, j: int|
            #![trigger es[n].1.reasons@[i].operations@[j]]
            0 <= n < es.len() && 0 <= i < es[n].1.reasons@.len() && 0 <= j
                < es[n].1.reasons@[i].operations@.len() && es[n].0@ == x
                && es[n].1.reasons@[i].operations@[j].source is Fas,
{
    assert(explained(result) =~= es);
    if is_fas_action(es, x) {
        let n = choose|n: int|
            0 <= n < es.len() && (#[trigger] es[n]).0@ == x && has_fas(es[n].1);
        let e = es[n].1;
        let (i, j) = choose|i: int, j: int|
            0 <= i < e.reasons@.len() && 0 <= j < e.reasons@[i].operations@.len() && (
            #[trigger] e.reasons@[i].operations@[j]).source is Fas;
        assert(es[n].1.reasons@[i].operations@[j].source is Fas);
    }
    if exists|n: int, i: int, j: int|
        #![trigger es[n].1.reasons@[i].operations@[j]]
        0 <= n < es.len() && 0 <= i < es[n].1.reasons@.len() && 0 <= j
            < es[n].1.reasons@[i].operations@.len() && es[n].0@ == x
            && es[n].1.reasons@[i].operations@[j].source is Fas {
        let (n, i, j) = choose|n: int, i: int, j: int|
            #![trigger es[n].1.reasons@[i].operations@[j]]
            0 <= n < es.len() && 0 <= i < es[n].1.reasons@.len() && 0 <= j
                < es[n].1.reasons@[i].operations@.len() && es[n].0@ == x
                && es[n].1.reasons@[i].operations@[j].source is Fas;
        assert(es[n].1.reasons@[i].operations@[j].source is Fas);
        assert(has_fas(es[n].1));
    }
}

/// The reasons in a comment are those of the actions of the head that forward access sessions need.
pub proof fn reasons_are_those_of_the_head(v: Version, x: Seq<char>)
    ensures
        fas_reasons(v).contains_key(x) <==> (v matches Version::Analysed(r) && is_fas_action(
            explained(r),
            x,
        )),
{
}

/// Actions are listed one by one, in their order, each with its reason if it has one.
pub proof fn actions_are_listed_one_by_one(
    a: Seq<Seq<char>>,
    x: Seq<char>,
    b: Seq<Seq<char>>,
    reasons: Map<Seq<char>, Seq<char>>,
)
    ensures
        action_list(a + seq![x] + b, reasons) == action_list(a, reasons) + (
        if reasons.contains_key(x) {
            "\n- `"@ + x + "` — "@ + reasons[x]
        } else {
            "\n- `"@ + x + "`"@
        }) + action_list(b, reasons),
    decreases b.len(),
{
    let v = a + seq![x] + b;
    let own = action_item(x, reasons);
    if b.len() == 0 {
        assert(v.drop_last() =~= a);
        assert(v.last() == x);
        assert(action_list(v, reasons) =~= action_list(a, reasons) + own + action_list(b, reasons));
    } else {
        let t = b.drop_last();
        actions_are_listed_one_by_one(a, x, t, reasons);
        assert(v.drop_last() =~= a + seq![x] + t);
        assert(v.last() == b.last());
        assert(action_list(v, reasons) =~= action_list(a, reasons) + own + action_list(b, reasons));
    }
}

/// A comment has a part for new actions if there are any, and a part for gone actions if there are
/// any, in this order.
pub proof fn comments_have_their_parts(
    added: Seq<Seq<char>>,
    removed: Seq<Seq<char>>,
    reasons: Map<Seq<char>, Seq<char>>,
    groups: Option<Seq<ActionGroupView>>,
)
    ensures
        added.len() > 0 && removed.len() > 0 ==> comment_body(added, removed, reasons, groups)
            == added_section(added, reasons, groups) + "\n\n---\n\n"@ + removed_section(removed),
        added.len() > 0 && removed.len() == 0 ==> comment_body(added, removed, reasons, groups)
            == added_section(added, reasons, groups),
        added.len() == 0 && removed.len() > 0 ==> comment_body(added, removed, reasons, groups)
            == removed_section(removed),
        added.len() == 0 && removed.len() == 0 ==> comment_body(
            added,
            removed,
            reasons,
            groups,
        ).len() == 0,
{
    let sep = "\n\n---\n\n"@;
    let p = comment_parts(added, removed, reasons, groups);
    let n = added_section(added, reasons, groups);
    let g = removed_section(removed);
    if added.len() > 0 && removed.len() > 0 {
        assert(p =~= seq![n, g]);
        assert(p.drop_last() =~= seq![n]);
        assert(joined(seq![n], sep) == n);
    } else if added.len() > 0 {
        assert(p =~= seq![n]);
    } else if removed.len() > 0 {
        assert(p =~= seq![g]);
    } else {
        assert(p =~= Seq::<Seq<char>>::empty());
    }
}

/// The part for new actions lists them all, or, where they are grouped, all groups with their keys;
/// the part for gone actions lists them all.
pub proof fn parts_list_their_actions(
    added: Seq<Seq<char>>,
    removed: Seq<Seq<char>>,
    reasons: Map<Seq<char>, Seq<char>>,
    groups: Option<Seq<ActionGroupView>>,
    k: int,
)
    ensures
        groups is None ==> exists|a: Seq<char>, b: Seq<char>|
            added_section(added, reasons, groups) == #[trigger] (a + action_list(added, reasons) + b),
        groups is Some && 0 <= k < groups->0.len() ==> exists|a: Seq<char>, b: Seq<char>|
            added_section(added, reasons, groups) == #[trigger] (a + group_text(
                groups->0[k],
                reasons,
            ) + b),
        groups is Some && 0 <= k < groups->0.len() && groups->0[k].key.len() > 0 ==> group_text(
            groups->0[k],
            reasons,
        ) == "`"@ + groups->0[k].key + "`"@ + action_list(groups->0[k].actions, reasons),
        groups is Some && 0 <= k < groups->0.len() && groups->0[k].key.len() == 0 ==> group_text(
            groups->0[k],
            reasons,
        ) == action_list(groups->0[k].actions, reasons),
        exists|a: Seq<char>| removed_section(removed) == #[trigger] (a + action_list(removed, Map::empty())),
{
    let head = "⚠️ **New IAM permissions required by this change:**\n"@;
    let foot =
        "\n\n> These permissions were detected via static analysis of the added code.\n> Review carefully before granting."@;
    match groups {
        None => {
            assert(added_section(added, reasons, groups) =~= head + action_list(added, reasons)
                + foot);
        },
        Some(gs) => {
            if 0 <= k < gs.len() {
                let v = group_texts(gs, reasons);
                let sep = "\n\n"@;
                assert(v[k] == group_text(gs[k], reasons));
                let (a, b) = lemma_piece_in_join(v, sep, k);
                let start = head + ("\n"@ + a);
                let end = b + foot;
                assert(added_section(added, reasons, groups) =~= start + group_text(gs[k], reasons)
                    + end);
            }
        },
    }
    assert(removed_section(removed)
        == "✅ **IAM permissions no longer required after this change:**\n"@ + action_list(
        removed,
        Map::empty(),
    ));
}

proof fn lemma_piece_in_join(v: Seq<Seq<char>>, sep: Seq<char>, k: int) -> (r: (
    Seq<char>,
    Seq<char>,
))
    requires
        0 <= k < v.len(),
    ensures
        joined(v, sep) == r.0 + v[k] + r.1,
    decreases v.len(),
{
    let none = Seq::<char>::empty();
    if v.len() == 1 {
        assert(none + v[0] + none =~= v[0]);
        (none, none)
    } else {
        let t = v.drop_last();
        if k < t.len() {
            let (a, b) = lemma_piece_in_join(t, sep, k);
            assert(t[k] == v[k]);
            assert(joined(v, sep) =~= a + v[k] + (b + sep + v.last()));
            (a, b + sep + v.last())
        } else {
            assert(joined(v, sep) =~= (joined(t, sep) + sep) + v[k] + none);
            (joined(t, sep) + sep, none)
        }
    }
}

/// A comment stands at the first line that both makes a call and is added; if there is none, at the
/// first added line.
pub proof fn comments_stand_at_the_first_shared_line(r: u32, sdk: Seq<u32>, added: Seq<u32>)
    requires
        is_anchor(r, sdk, added),
    ensures
        forall|i: int|
            #![trigger sdk[i]]
            0 <= i < sdk.len() && added.contains(sdk[i]) && (forall|j: int|
                0 <= j < i ==> !added.contains(#[trigger] sdk[j])) ==> r == sdk[i],
        (forall|i: int| 0 <= i < sdk.len() ==> !added.contains(#[trigger] sdk[i])) && added.len()
            > 0 ==> added.contains(r) && forall|i: int| 0 <= i < added.len() ==> r <= #[trigger] added[i],
        added.len() == 0 ==> r == 1,
{
    assert forall|i: int|
        #![trigger sdk[i]]
        0 <= i < sdk.len() && added.contains(sdk[i]) && (forall|j: int|
            0 <= j < i ==> !added.contains(#[trigger] sdk[j])) implies r == sdk[i] by {
        lemma_first_shared(sdk, added, i);
    }
    if forall|i: int| 0 <= i < sdk.len() ==> !added.contains(#[trigger] sdk[i]) {
        lemma_first_shared(sdk, added, sdk.len() as int);
    }
    if added.len() == 0 {
        lemma_first_shared(sdk, added, sdk.len() as int);
    }
}

proof fn lemma_first_shared(sdk: Seq<u32>, added: Seq<u32>, i: int)
    requires
        0 <= i <= sdk.len(),
        forall|j: int| 0 <= j < i ==> !added.contains(#[trigger] sdk[j]),
        i < sdk.len() ==> added.contains(sdk[i]),
    ensures
        i < sdk.len() ==> first_shared(sdk, added) == Some(sdk[i]),
        i == sdk.len() ==> first_shared(sdk, added) is None,
    decreases sdk.len(),
{
    if i > 0 {
        let t = sdk.subrange(1, sdk.len() as int);
        assert(!added.contains(sdk[0]));
        assert forall|j: int| 0 <= j < i - 1 implies !added.contains(#[trigger] t[j]) by {
            assert(t[j] == sdk[j + 1]);
        }
        lemma_first_shared(t, added, i - 1);
    }
}

/// The lines of calls are those at which the calls start.
pub proof fn calls_have_their_lines(calls: Seq<SdkMethodCall>, x: u32)
    ensures
        call_lines(calls).contains(x) <==> exists|i: int|
            0 <= i < calls.len() && (#[trigger] calls[i]).metadata is Some && (
            #[verifier::truncate]
            (calls[i].metadata->0.location.start_position.0 as u32)) == x,
    decreases calls.len(),
{
    broadcast use lemma_seq_contains_after_push;

    if calls.len() > 0 {
        let t = calls.drop_last();
        calls_have_their_lines(t, x);
        assert(calls[calls.len() - 1] == calls.last());
        assert forall|i: int| 0 <= i < t.len() implies t[i] == calls[i] by {}
        if call_lines(t).contains(x) {
            let i = choose|i: int|
                0 <= i < t.len() && (#[trigger] t[i]).metadata is Some && (
                #[verifier::truncate]
                (t[i].metadata->0.location.start_position.0 as u32)) == x;
            assert(calls[i].metadata is Some);
        }
    }
}

/// Every file with new or gone actions whose analysis did not fail has a comment.
pub proof fn changed_files_have_comments(
    cs: Seq<ReviewComment>,
    files: Seq<FileAnalysis>,
    added: Seq<(Seq<char>, int)>,
    i: int,
)
    requires
        are_comments_on(cs, files, added),
        0 <= i < files.len(),
        !is_skipped(files[i]),
        !is_unchanged(files[i]),
    ensures
        exists|k: int| 0 <= k < cs.len() && #[trigger] is_comment_on(cs[k], files[i], added),
    decreases files.len(),
{
    let t = files.drop_last();
    let last = files.last();
    if i == files.len() - 1 {
        assert(is_comment_on(cs[cs.len() - 1], files[i], added));
    } else {
        assert(t[i] == files[i]);
        if is_skipped(last) || is_unchanged(last) {
            changed_files_have_comments(cs, t, added, i);
            let k = choose|k: int| 0 <= k < cs.len() && #[trigger] is_comment_on(cs[k], t[i], added);
            assert(is_comment_on(cs[k], files[i], added));
        } else {
            let ds = cs.drop_last();
            changed_files_have_comments(ds, t, added, i);
            let k = choose|k: int| 0 <= k < ds.len() && #[trigger] is_comment_on(ds[k], t[i], added);
            assert(is_comment_on(cs[k], files[i], added));
        }
    }
}

/// Every comment is on a file with new or gone actions whose analysis did not fail.
pub proof fn comments_are_on_changed_files(
    cs: Seq<ReviewComment>,
    files: Seq<FileAnalysis>,
    added: Seq<(Seq<char>, int)>,
    k: int,
)
    requires
        are_comments_on(cs, files, added),
        0 <= k < cs.len(),
    ensures
        exists|i: int|
            0 <= i < files.len() && !is_skipped(files[i]) && !is_unchanged(files[i])
                && #[trigger] is_comment_on(cs[k], files[i], added),
    decreases files.len(),
{
    let t = files.drop_last();
    let last = files.last();
    if is_skipped(last) || is_unchanged(last) {
        comments_are_on_changed_files(cs, t, added, k);
        let i = choose|i: int|
            0 <= i < t.len() && !is_skipped(t[i]) && !is_unchanged(t[i]) && #[trigger] is_comment_on(
                cs[k],
                t[i],
                added,
            );
        assert(is_comment_on(cs[k], files[i], added));
    } else if k == cs.len() - 1 {
        assert(is_comment_on(cs[k], files[files.len() - 1], added));
    } else {
        let ds = cs.drop_last();
        comments_are_on_changed_files(ds, t, added, k);
        let i = choose|i: int|
            0 <= i < t.len() && !is_skipped(t[i]) && !is_unchanged(t[i]) && #[trigger] is_comment_on(
                ds[k],
                t[i],
                added,
            );
        assert(is_comment_on(cs[k], files[i], added));
    }
}

/// The comments on two lists of files are those on the first and those on the second.
pub proof fn files_are_commented_one_by_one(
    cs: Seq<ReviewComment>,
    ds: Seq<ReviewComment>,
    a: Seq<FileAnalysis>,
    b: Seq<FileAnalysis>,
    added: Seq<(Seq<char>, int)>,
)
    requires
        are_comments_on(cs, a, added),
        are_comments_on(ds, b, added),
    ensures
        are_comments_on(cs + ds, a + b, added),
    decreases b.len(),
{
    let v = a + b;
    if b.len() == 0 {
        assert(v =~= a);
        assert(cs + ds =~= cs);
    } else {
        let t = b.drop_last();
        assert(v.drop_last() =~= a + t);
        assert(v.last() == b.last());
        if is_skipped(b.last()) || is_unchanged(b.last()) {
            files_are_commented_one_by_one(cs, ds, a, t, added);
        } else {
            files_are_commented_one_by_one(cs, ds.drop_last(), a, t, added);
            assert((cs + ds).drop_last() =~= cs + ds.drop_last());
            assert((cs + ds).last() == ds.last());
        }
    }
}

/// A comment on a file names its path, and lists its new and gone actions in alphabetical order, the
/// new ones in groups exactly if the policies of the head make any.
pub proof fn comments_name_their_actions(
    c: ReviewComment,
    a: FileAnalysis,
    added: Seq<(Seq<char>, int)>,
)
    requires
        is_comment_on(c, a, added),
    ensures
        c.path@ == a.path@,
        exists|new: Seq<Seq<char>>, gone: Seq<Seq<char>>, groups: Option<Seq<ActionGroupView>>|
            c.body@ == #[trigger] comment_body(new, gone, fas_reasons(a.head), groups) && (forall|
                x: Seq<char>,
            | #[trigger]
                new.contains(x) <==> new_actions(a).contains(x)) && (forall|x: Seq<char>| #[trigger]
                gone.contains(x) <==> gone_actions(a).contains(x)) && (forall|i: int, j: int|
                0 <= i < j < new.len() ==> text_lt(#[trigger] new[i], #[trigger] new[j])) && (
            forall|i: int, j: int|
                0 <= i < j < gone.len() ==> text_lt(#[trigger] gone[i], #[trigger] gone[j])) && (
            groups is Some <==> (a.head matches Version::Analysed(r) && is_groupable(
                r.policies@,
                new,
            ))) && (groups is Some ==> groups_are(
                groups->0,
                a.head->Analysed_0.policies@,
                new,
            )),
{
    let (new, gone, groups) = choose|
        new: Seq<Seq<char>>,
        gone: Seq<Seq<char>>,
        groups: Option<Seq<ActionGroupView>>,
    |
        lists(new, new_actions(a)) && lists(gone, gone_actions(a))
            && crate::review::generate::are_groups(groups, a.head, new) && c.body@
            == #[trigger] comment_body(new, gone, fas_reasons(a.head), groups);
    assert forall|x: Seq<char>| #[trigger] new.contains(x) <==> new_actions(a).contains(x) by {
        assert(new.to_set().contains(x) == new.contains(x));
    }
    assert forall|x: Seq<char>| #[trigger] gone.contains(x) <==> gone_actions(a).contains(x) by {
        assert(gone.to_set().contains(x) == gone.contains(x));
    }
    assert(c.body@ == comment_body(new, gone, fas_reasons(a.head), groups));
}

/// A comment stands at an added line of its file: that of the first call among them, or else the first
/// one; where the head is missing, at the first one. Without added lines it stands at the first line.
pub proof fn comments_stand_at_added_lines(
    c: ReviewComment,
    a: FileAnalysis,
    added: Seq<(Seq<char>, int)>,
)
    requires
        is_comment_on(c, a, added),
    ensures
        exists|lines: Seq<u32>|
            #![trigger lines.len()]
            lines.len() == lines_of_file(added, a.path@).len() && (forall|i: int|
                0 <= i < lines.len() ==> (#[trigger] lines[i]) as int == lines_of_file(
                    added,
                    a.path@,
                )[i]) && (a.head !is Missing ==> is_anchor(c.line, a.sdk_lines@, lines)) && (
            a.head is Missing && lines.len() > 0 ==> lines.contains(c.line) && forall|i: int|
                0 <= i < lines.len() ==> c.line <= #[trigger] lines[i]) && (a.head is Missing
                && lines.len() == 0 ==> c.line == 1),
{
    let lines = choose|lines: Seq<u32>| #[trigger]
        crate::review::diff::line_ints(lines) == lines_of_file(added, a.path@) && (
        if a.head is Missing {
            is_first_line(c.line, lines)
        } else {
            is_anchor(c.line, a.sdk_lines@, lines)
        });
    let ints = crate::review::diff::line_ints(lines);
    assert(ints.len() == lines.len());
    assert forall|i: int| 0 <= i < lines.len() implies (#[trigger] lines[i]) as int
        == lines_of_file(added, a.path@)[i] by {
        assert(ints[i] == lines[i]);
    }
}

/// Line numbers fit if no number that the diff counts to is too large.
pub proof fn line_numbers_are_counted_throughout(diff: Seq<char>, n: int)
    requires
        crate::review::diff::line_numbers_fit(diff),
        0 <= n <= crate::text::lines_of(diff).len(),
    ensures
        after_lines(crate::text::lines_of(diff).subrange(0, n)).next <= u32::MAX,
{
}

/// The reason that is given for an action names forward access sessions and where to read of them.
pub proof fn reasons_name_forward_access_sessions()
    ensures
        crate::review::actions::fas_text() == "needed for [Forward Access Session]("@
            + crate::review::actions::FAS_DOCS_URL@ + ") permissions"@,
{
}

/// Added lines are kept by file, in their order.
pub proof fn added_lines_are_kept_by_file(
    a: Seq<(Seq<char>, int)>,
    l: (Seq<char>, int),
    b: Seq<(Seq<char>, int)>,
    file: Seq<char>,
)
    ensures
        lines_of_file(a + seq![l] + b, file) == lines_of_file(a, file) + (if l.0 == file {
            seq![l.1]
        } else {
            Seq::empty()
        }) + lines_of_file(b, file),
    decreases b.len(),
{
    let v = a + seq![l] + b;
    let own = if l.0 == file {
        seq![l.1]
    } else {
        Seq::<int>::empty()
    };
    if b.len() == 0 {
        assert(v.drop_last() =~= a);
        assert(v.last() == l);
    } else {
        let t = b.drop_last();
        added_lines_are_kept_by_file(a, l, t, file);
        assert(v.drop_last() =~= a + seq![l] + t);
        assert(v.last() == b.last());
    }
    assert(lines_of_file(v, file) =~= lines_of_file(a, file) + own + lines_of_file(b, file));
}

/// A diff is read line by line, from no file and no line on.
pub proof fn diffs_are_read_line_by_line(ls: Seq<Seq<char>>, line: Seq<char>)
    ensures
        after_lines(ls.push(line)) == after_line(after_lines(ls), line),
        after_lines(Seq::empty()) == (DiffState { file: None, next: 0, added: Seq::empty() }),
{
    assert(ls.push(line).drop_last() =~= ls);
}

/// A line `+++ b/path` names the file that the lines behind it belong to.
pub proof fn headers_name_the_file(st: DiffState, path: Seq<char>)
    requires
        path.len() > 0,
        !crate::text::is_space(path.last()),
    ensures
        after_line(st, "+++ b/"@ + path) == (DiffState { file: Some(path), ..st }),
{
    reveal_strlit("+++ b/");
    reveal_strlit("+++ ");
    reveal_strlit("b/");
    let line = "+++ b/"@ + path;
    let rest = "b/"@ + path;
    assert(line =~= "+++ "@ + rest);
    prefixes_stand_before_the_rest("+++ "@, rest);
    assert(line.subrange(4, line.len() as int) =~= rest);
    assert(!crate::text::is_space('b'));
    assert(rest[0] == 'b');
    assert(rest.last() == path.last());
    let none = Seq::<char>::empty();
    spaces_around_are_trimmed(none, rest, none);
    assert(none + rest + none =~= rest);
    prefixes_stand_before_the_rest("b/"@, path);
}

/// In a file, a line with a plus sign is added at the current number and counts; one without a sign
/// counts; one with a minus sign does not.
pub proof fn lines_of_hunks_count(st: DiffState, file: Seq<char>, text: Seq<char>)
    requires
        st.file == Some(file),
        text.len() == 0 || text[0] != '+' && text[0] != '-',
    ensures
        after_line(st, "+"@ + text) == (DiffState {
            next: st.next + 1,
            added: st.added.push((file, st.next)),
            ..st
        }),
        after_line(st, " "@ + text) == (DiffState { next: st.next + 1, ..st }),
        after_line(st, "-"@ + text) == st,
{
    reveal_strlit("+");
    reveal_strlit(" ");
    reveal_strlit("-");
    lemma_first_characters();
    let p = "+"@ + text;
    let c = " "@ + text;
    let m = "-"@ + text;
    assert(p[0] == '+' && c[0] == ' ' && m[0] == '-');
    prefixes_stand_before_the_rest("+"@, text);
    prefixes_stand_before_the_rest("-"@, text);
    lemma_no_prefix(p, "--- "@);
    lemma_no_prefix(p, "diff "@);
    lemma_no_prefix(p, "index "@);
    lemma_no_prefix(p, "new file"@);
    lemma_no_prefix(p, "deleted file"@);
    lemma_no_prefix(p, "old mode"@);
    lemma_no_prefix(p, "new mode"@);
    lemma_no_prefix(p, "@@ "@);
    lemma_no_prefix(c, "+"@);
    lemma_no_prefix(c, "-"@);
    lemma_no_prefix(c, "+++ "@);
    lemma_no_prefix(c, "--- "@);
    lemma_no_prefix(c, "diff "@);
    lemma_no_prefix(c, "index "@);
    lemma_no_prefix(c, "new file"@);
    lemma_no_prefix(c, "deleted file"@);
    lemma_no_prefix(c, "old mode"@);
    lemma_no_prefix(c, "new mode"@);
    lemma_no_prefix(c, "@@ "@);
    lemma_no_prefix(m, "+"@);
    lemma_no_prefix(m, "+++ "@);
    lemma_no_prefix(m, "diff "@);
    lemma_no_prefix(m, "index "@);
    lemma_no_prefix(m, "new file"@);
    lemma_no_prefix(m, "deleted file"@);
    lemma_no_prefix(m, "old mode"@);
    lemma_no_prefix(m, "new mode"@);
    lemma_no_prefix(m, "@@ "@);
    reveal_strlit("+++ ");
    reveal_strlit("+++");
    if crate::text::has_prefix(p, "+++ "@) {
        assert(p.subrange(0, 4)[1] == p[1]);
        assert("+++ "@[1] == '+');
        assert(p[1] == text[0]);
    }
    if crate::text::has_prefix(p, "+++"@) {
        assert(p.subrange(0, 3)[1] == p[1]);
        assert("+++"@[1] == '+');
        assert(p[1] == text[0]);
    }
}

proof fn lemma_no_prefix(s: Seq<char>, p: Seq<char>)
    requires
        s.len() > 0,
        p.len() > 0,
        s[0] != p[0],
    ensures
        !crate::text::has_prefix(s, p),
{
    if crate::text::has_prefix(s, p) {
        assert(s.subrange(0, p.len() as int)[0] == s[0]);
    }
}

proof fn lemma_first_characters()
    ensures
        "--- "@.len() > 0 && "--- "@[0] == '-',
        "diff "@.len() > 0 && "diff "@[0] == 'd',
        "index "@.len() > 0 && "index "@[0] == 'i',
        "new file"@.len() > 0 && "new file"@[0] == 'n',
        "deleted file"@.len() > 0 && "deleted file"@[0] == 'd',
        "old mode"@.len() > 0 && "old mode"@[0] == 'o',
        "new mode"@.len() > 0 && "new mode"@[0] == 'n',
        "@@ "@.len() > 0 && "@@ "@[0] == '@',
        "+++ "@.len() > 0 && "+++ "@[0] == '+',
{
    reveal_strlit("--- ");
    reveal_strlit("diff ");
    reveal_strlit("index ");
    reveal_strlit("new file");
    reveal_strlit("deleted file");
    reveal_strlit("old mode");
    reveal_strlit("new mode");
    reveal_strlit("@@ ");
    reveal_strlit("+++ ");
}

/// The header of a hunk names the number of its first line behind the plus sign.
pub proof fn hunks_start_at_their_number(st: DiffState, old_part: Seq<char>, n: nat, rest: Seq<char>)
    requires
        n <= u32::MAX,
        !old_part.contains(' '),
        rest.len() > 0,
        rest[0] == ',' || rest[0] == ' ',
    ensures
        hunk_start("@@ "@ + old_part + " +"@ + decimal(n) + rest) == Some(n as int),
        after_line(st, "@@ "@ + old_part + " +"@ + decimal(n) + rest) == (DiffState {
            next: n as int,
            ..st
        }),
{
    reveal_strlit(" +");
    let line = "@@ "@ + old_part + " +"@ + decimal(n) + rest;
    let d = decimal(n);
    let behind = d + rest;
    let inner = old_part + " +"@ + behind;
    assert(line =~= "@@ "@ + inner);
    prefixes_stand_before_the_rest("@@ "@, inner);
    assert(" +"@[0] == ' ');
    texts_are_found_at_their_start(old_part, " +"@, behind);
    assert(inner.subrange(old_part.len() as int + 2, inner.len() as int) =~= behind);
    numbers_are_read_back(n, u32::MAX as int);
    // The digits end at the first comma or space.
    let comma = find_from(behind, ',', 0);
    let space = find_from(behind, ' ', 0);
    lemma_find_from(behind, ',', 0);
    lemma_find_from(behind, ' ', 0);
    assert forall|j: int| 0 <= j < d.len() implies behind[j] != ',' && behind[j] != ' ' by {
        assert(behind[j] == d[j]);
        assert(crate::text::is_digit(d[j]));
    }
    assert(behind[d.len() as int] == rest[0]);
    if rest[0] == ',' {
        lemma_find_is(behind, ',', 0, d.len() as int);
    } else {
        lemma_find_is(behind, ' ', 0, d.len() as int);
    }
    assert(leading_part(behind) =~= d);
    lemma_first_characters();
    assert(line[0] == "@@ "@[0]);
    lemma_no_prefix(line, "+++ "@);
    lemma_no_prefix(line, "--- "@);
    lemma_no_prefix(line, "diff "@);
    lemma_no_prefix(line, "index "@);
    lemma_no_prefix(line, "new file"@);
    lemma_no_prefix(line, "deleted file"@);
    lemma_no_prefix(line, "old mode"@);
    lemma_no_prefix(line, "new mode"@);
}

/// Which files are reviewed: those whose extension is that of a language.
pub proof fn extensions_name_languages(e: Seq<char>)
    ensures
        language_of_extension("py"@) == Some(Language::Python),
        language_of_extension("js"@) == Some(Language::JavaScript),
        language_of_extension("mjs"@) == Some(Language::JavaScript),
        language_of_extension("cjs"@) == Some(Language::JavaScript),
        language_of_extension("ts"@) == Some(Language::TypeScript),
        language_of_extension("tsx"@) == Some(Language::TypeScript),
        language_of_extension("go"@) == Some(Language::Go),
        e != "py"@ && e != "js"@ && e != "mjs"@ && e != "cjs"@ && e != "ts"@ && e != "tsx"@ && e
            != "go"@ ==> language_of_extension(e) is None,
{
    reveal_strlit("py");
    reveal_strlit("js");
    reveal_strlit("mjs");
    reveal_strlit("cjs");
    reveal_strlit("ts");
    reveal_strlit("tsx");
    reveal_strlit("go");
    assert("py"@.len() == 2 && "js"@.len() == 2 && "ts"@.len() == 2 && "go"@.len() == 2);
    assert("py"@[0] == 'p' && "js"@[0] == 'j' && "ts"@[0] == 't' && "go"@[0] == 'g');
    assert("mjs"@[0] == 'm' && "cjs"@[0] == 'c' && "tsx"@[0] == 't');
    assert("mjs"@.len() == 3 && "cjs"@.len() == 3 && "tsx"@.len() == 3);
}

/// The language of a file is that of its extension, in whatever directory it is.
pub proof fn paths_name_languages(dir: Seq<char>, stem: Seq<char>, e: Seq<char>)
    requires
        dir.len() > 0,
        stem.len() > 0,
        stem[0] != '.',
        !stem.contains('/'),
        !e.contains('/'),
        !e.contains('.'),
        e.len() > 0,
    ensures
        language_of_path(stem + seq!['.'] + e) == language_of_extension(e),
        language_of_path(dir + seq!['/'] + (stem + seq!['.'] + e)) == language_of_extension(e),
{
    crate::path_laws::paths_have_extensions(dir, stem, e);
}

/// Files are chosen one by one, in their order.
pub proof fn files_are_chosen_one_by_one(a: Seq<Seq<char>>, f: Seq<char>, b: Seq<Seq<char>>)
    ensures
        supported(a + seq![f] + b) == supported(a) + (match language_of_path(f) {
            Some(l) => seq![(f, l)],
            None => Seq::empty(),
        }) + supported(b),
    decreases b.len(),
{
    let v = a + seq![f] + b;
    let own = match language_of_path(f) {
        Some(l) => seq![(f, l)],
        None => Seq::empty(),
    };
    if b.len() == 0 {
        assert(v.drop_last() =~= a);
        assert(v.last() == f);
    } else {
        let t = b.drop_last();
        files_are_chosen_one_by_one(a, f, t);
        assert(v.drop_last() =~= a + seq![f] + t);
        assert(v.last() == b.last());
    }
    assert(supported(v) =~= supported(a) + own + supported(b));
}

/// The lines before the hunks of a file change nothing.
pub proof fn preambles_change_nothing(st: DiffState, text: Seq<char>)
    ensures
        after_line(st, "diff "@ + text) == st,
        after_line(st, "index "@ + text) == st,
        after_line(st, "--- "@ + text) == st,
        after_line(st, "new file"@ + text) == st,
        after_line(st, "deleted file"@ + text) == st,
        after_line(st, "old mode"@ + text) == st,
        after_line(st, "new mode"@ + text) == st,
{
    lemma_first_characters();
    prefixes_stand_before_the_rest("diff "@, text);
    prefixes_stand_before_the_rest("index "@, text);
    prefixes_stand_before_the_rest("--- "@, text);
    prefixes_stand_before_the_rest("new file"@, text);
    prefixes_stand_before_the_rest("deleted file"@, text);
    prefixes_stand_before_the_rest("old mode"@, text);
    prefixes_stand_before_the_rest("new mode"@, text);
    lemma_no_prefix("diff "@ + text, "+++ "@);
    lemma_no_prefix("index "@ + text, "+++ "@);
    lemma_no_prefix("--- "@ + text, "+++ "@);
    lemma_no_prefix("new file"@ + text, "+++ "@);
    lemma_no_prefix("deleted file"@ + text, "+++ "@);
    lemma_no_prefix("old mode"@ + text, "+++ "@);
    lemma_no_prefix("new mode"@ + text, "+++ "@);
}

/// The header of a file may stand without `b/`.
pub proof fn headers_may_name_the_path_alone(st: DiffState, path: Seq<char>)
    requires
        path.len() > 0,
        !crate::text::is_space(path[0]),
        !crate::text::is_space(path.last()),
        forall|p: Seq<char>| path != #[trigger] ("b/"@ + p),
    ensures
        after_line(st, "+++ "@ + path) == (DiffState { file: Some(path), ..st }),
{
    reveal_strlit("+++ ");
    let line = "+++ "@ + path;
    prefixes_stand_before_the_rest("+++ "@, path);
    assert(line.subrange(4, line.len() as int) =~= path);
    let none = Seq::<char>::empty();
    spaces_around_are_trimmed(none, path, none);
    assert(none + path + none =~= path);
    texts_without_prefix(path, "b/"@);
}

/// A header of a hunk that cannot be read changes nothing.
pub proof fn unreadable_hunks_change_nothing(st: DiffState, rest: Seq<char>)
    requires
        hunk_start("@@ "@ + rest) is None,
    ensures
        after_line(st, "@@ "@ + rest) == st,
{
    let line = "@@ "@ + rest;
    lemma_first_characters();
    prefixes_stand_before_the_rest("@@ "@, rest);
    assert(line[0] == "@@ "@[0]);
    lemma_no_prefix(line, "+++ "@);
}

/// A removed line never counts, whatever is behind its minus sign.
pub proof fn removed_lines_never_count(st: DiffState, text: Seq<char>)
    ensures
        after_line(st, "-"@ + text) == st,
{
    reveal_strlit("-");
    lemma_first_characters();
    let m = "-"@ + text;
    assert(m[0] == '-');
    prefixes_stand_before_the_rest("-"@, text);
    lemma_no_prefix(m, "+++ "@);
    lemma_no_prefix(m, "@@ "@);
    assert("+"@[0] == '+' && "+"@.len() == 1) by {
        reveal_strlit("+");
    }
    lemma_no_prefix(m, "+"@);
}

/// In a file every line with a plus sign is added, unless it has three of them.
pub proof fn lines_with_a_plus_sign_are_added(st: DiffState, file: Seq<char>, text: Seq<char>)
    requires
        st.file == Some(file),
        text.len() < 2 || text[0] != '+' || text[1] != '+',
    ensures
        after_line(st, "+"@ + text) == (DiffState {
            next: st.next + 1,
            added: st.added.push((file, st.next)),
            ..st
        }),
{
    reveal_strlit("+");
    reveal_strlit("+++ ");
    reveal_strlit("+++");
    lemma_first_characters();
    let p = "+"@ + text;
    assert(p[0] == '+');
    prefixes_stand_before_the_rest("+"@, text);
    lemma_no_prefix(p, "--- "@);
    lemma_no_prefix(p, "diff "@);
    lemma_no_prefix(p, "index "@);
    lemma_no_prefix(p, "new file"@);
    lemma_no_prefix(p, "deleted file"@);
    lemma_no_prefix(p, "old mode"@);
    lemma_no_prefix(p, "new mode"@);
    lemma_no_prefix(p, "@@ "@);
    if crate::text::has_prefix(p, "+++ "@) {
        let w = p.subrange(0, 4);
        assert(w[1] == p[1] && w[2] == p[2]);
        assert(p[1] == text[0] && p[2] == text[1]);
    }
    if crate::text::has_prefix(p, "+++"@) {
        let w = p.subrange(0, 3);
        assert(w[1] == p[1] && w[2] == p[2]);
        assert(p[1] == text[0] && p[2] == text[1]);
    }
}

/// In a file every other line counts, also an empty one, and adds nothing.
pub proof fn other_lines_count(st: DiffState, file: Seq<char>, line: Seq<char>)
    requires
        st.file == Some(file),
        line.len() > 0 ==> line[0] != '+' && line[0] != '-' && line[0] != '@',
        !is_preamble(line),
    ensures
        after_line(st, line) == (DiffState { next: st.next + 1, ..st }),
{
    reveal_strlit("+");
    reveal_strlit("-");
    lemma_first_characters();
    if line.len() > 0 {
        lemma_no_prefix(line, "+"@);
        lemma_no_prefix(line, "-"@);
        lemma_no_prefix(line, "+++ "@);
        lemma_no_prefix(line, "@@ "@);
    }
}

/// Whether a line is a word and whatever stands behind it.
pub open spec fn opens_with(line: Seq<char>, word: Seq<char>) -> bool {
    exists|text: Seq<char>| line == #[trigger] (word + text)
}

proof fn lemma_opens_with(line: Seq<char>, word: Seq<char>)
    ensures
        crate::text::has_prefix(line, word) == opens_with(line, word),
{
    texts_without_prefix(line, word);
    if crate::text::has_prefix(line, word) {
        let text = crate::text::after_prefix(line, word)->0;
        assert(line == word + text);
    }
}

/// Which lines stand before the hunks of a file.
pub proof fn preambles_start_with_their_words(line: Seq<char>)
    ensures
        is_preamble(line) <==> opens_with(line, "--- "@) || opens_with(line, "diff "@) || opens_with(
            line,
            "index "@,
        ) || opens_with(line, "new file"@) || opens_with(line, "deleted file"@) || opens_with(
            line,
            "old mode"@,
        ) || opens_with(line, "new mode"@),
{
    lemma_opens_with(line, "--- "@);
    lemma_opens_with(line, "diff "@);
    lemma_opens_with(line, "index "@);
    lemma_opens_with(line, "new file"@);
    lemma_opens_with(line, "deleted file"@);
    lemma_opens_with(line, "old mode"@);
    lemma_opens_with(line, "new mode"@);
}

/// Actions that are grouped are those of at least two keys.
pub proof fn groups_have_two_keys(ps: Seq<PolicyWithMetadata>, among: Seq<Seq<char>>)
    requires
        is_groupable(ps, among),
    ensures
        ps.len() > 1,
        forall|k: int| 0 <= k < ps.len() ==> (#[trigger] ps[k]).policy.id is Some,
        exists|i: int, j: int, x: Seq<char>, y: Seq<char>|
            #![trigger policy_actions(ps[i]).contains(x), policy_actions(ps[j]).contains(y)]
            0 <= i < ps.len() && 0 <= j < ps.len() && ps[i].policy.id->0@ != ps[j].policy.id->0@
                && policy_actions(ps[i]).contains(x) && policy_actions(ps[j]).contains(y)
                && among.contains(x) && among.contains(y),
{
    let (k1, k2) = choose|k1: Seq<char>, k2: Seq<char>|
        k1 != k2 && #[trigger] requires_some(ps, among, k1) && #[trigger] requires_some(
            ps,
            among,
            k2,
        );
    let x = choose|x: Seq<char>| #[trigger] requires_action(ps, among, k1, x);
    let y = choose|y: Seq<char>| #[trigger] requires_action(ps, among, k2, y);
    let i = choose|i: int|
        0 <= i < ps.len() && opt_text((#[trigger] ps[i]).policy.id) == Some(k1) && policy_actions(
            ps[i],
        ).contains(x);
    let j = choose|j: int|
        0 <= j < ps.len() && opt_text((#[trigger] ps[j]).policy.id) == Some(k2) && policy_actions(
            ps[j],
        ).contains(y);
    assert(policy_actions(ps[i]).contains(x) && policy_actions(ps[j]).contains(y));
}

} // verus!
