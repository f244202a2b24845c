//! What holds of the answers about actions and policies.

use vstd::prelude::*;
use vstd::seq_lib::lemma_seq_concat_contains_all_elements;

use crate::json::{json_texts, JsonValue};
use crate::order::sorted_set_of;
use crate::policy_checker::{
    allowing_conditions, allowing_restrictions, allows, condition_texts, conditions_in, covers,
    denies, is_status, matches_pattern, operator_conditions, parsed, parsed_all, restriction,
    statements_of, ActionStatus, Effect, PolicyDocument, RawStatement, StatementOrVec,
    StatementView,
};
use crate::text::{joined, texts};

verus! {

/// What each character of a pattern stands for: `*` for any text, `?` for one character, and every
/// other character for itself.
pub proof fn characters_of_patterns(a: Seq<char>, c: char)
    ensures
        matches_pattern(a, Seq::empty()) == (a.len() == 0),
        c == '*' ==> matches_pattern(a, seq![c]),
        c == '?' ==> matches_pattern(a, seq![c]) == (a.len() == 1),
        c != '*' && c != '?' ==> matches_pattern(a, seq![c]) == (a == seq![c]),
{
    let p = seq![c];
    let rest = p.subrange(1, 1);
    assert(rest.len() == 0);
    if c == '*' {
        crate::policy_checker::star_matches_every_action(a);
    } else {
        if a == p {
            assert(matches_pattern(a.subrange(1, 1), rest));
        }
        if a.len() > 0 {
            let after = a.subrange(1, a.len() as int);
            assert(matches_pattern(after, rest) == (after.len() == 0));
            if a.len() == 1 && a[0] == c {
                assert(a =~= p);
            }
        }
    }
}

/// Patterns stand for what their parts stand for, one behind the other.
pub proof fn parts_of_patterns_match_in_turn(
    a: Seq<char>,
    b: Seq<char>,
    p: Seq<char>,
    q: Seq<char>,
)
    requires
        matches_pattern(a, p),
        matches_pattern(b, q),
    ensures
        matches_pattern(a + b, p + q),
    decreases p.len() + a.len(),
{
    let s = a + b;
    let r = p + q;
    if p.len() == 0 {
        assert(s =~= b);
        assert(r =~= q);
    } else {
        let rest = p.subrange(1, p.len() as int);
        assert(r.subrange(1, r.len() as int) =~= rest + q);
        assert(r[0] == p[0]);
        if p[0] == '*' {
            if matches_pattern(a, rest) {
                parts_of_patterns_match_in_turn(a, b, rest, q);
            } else {
                let after = a.subrange(1, a.len() as int);
                parts_of_patterns_match_in_turn(after, b, p, q);
                assert(s.subrange(1, s.len() as int) =~= after + b);
            }
        } else {
            let after = a.subrange(1, a.len() as int);
            parts_of_patterns_match_in_turn(after, b, rest, q);
            assert(s.subrange(1, s.len() as int) =~= after + b);
            assert(s[0] == a[0]);
        }
    }
}

/// What a pattern stands for can be cut into what its parts stand for.
pub proof fn matched_actions_are_cut_into_parts(s: Seq<char>, p: Seq<char>, q: Seq<char>)
    requires
        matches_pattern(s, p + q),
    ensures
        exists|n: int|
            0 <= n <= s.len() && #[trigger] matches_pattern(s.subrange(0, n), p) && matches_pattern(
                s.subrange(n, s.len() as int),
                q,
            ),
    decreases p.len() + s.len(),
{
    let r = p + q;
    let len = s.len() as int;
    if p.len() == 0 {
        assert(r =~= q);
        assert(s.subrange(0, 0).len() == 0);
        assert(s.subrange(0, len) =~= s);
        assert(matches_pattern(s.subrange(0, 0), p) && matches_pattern(s.subrange(0, len), q));
    } else {
        let rest = p.subrange(1, p.len() as int);
        assert(r.subrange(1, r.len() as int) =~= rest + q);
        if p[0] == '*' && matches_pattern(s, rest + q) {
            matched_actions_are_cut_into_parts(s, rest, q);
            let n = choose|n: int|
                0 <= n <= s.len() && #[trigger] matches_pattern(s.subrange(0, n), rest)
                    && matches_pattern(s.subrange(n, len), q);
            assert(matches_pattern(s.subrange(0, n), p));
        } else {
            let after = s.subrange(1, len);
            let behind = if p[0] == '*' {
                p
            } else {
                rest
            };
            matched_actions_are_cut_into_parts(after, behind, q);
            let n = choose|n: int|
                0 <= n <= after.len() && #[trigger] matches_pattern(after.subrange(0, n), behind)
                    && matches_pattern(after.subrange(n, after.len() as int), q);
            let head = s.subrange(0, n + 1);
            assert(head.subrange(1, head.len() as int) =~= after.subrange(0, n));
            assert(head[0] == s[0]);
            assert(after.subrange(n, after.len() as int) =~= s.subrange(n + 1, len));
            assert(matches_pattern(s.subrange(0, n + 1), p));
        }
    }
}

/// A statement covers an action exactly if one of its patterns stands for it, wherever in the list
/// the pattern is.
pub proof fn every_pattern_of_a_statement_counts(s: StatementView, action: Seq<char>)
    ensures
        covers(s, action) <==> exists|i: int|
            0 <= i < s.actions.len() && matches_pattern(action, #[trigger] s.actions[i]),
        allows(s, action) <==> s.effect == Effect::Allow && exists|i: int|
            0 <= i < s.actions.len() && matches_pattern(action, #[trigger] s.actions[i]),
        denies(s, action) <==> s.effect == Effect::Deny && exists|i: int|
            0 <= i < s.actions.len() && matches_pattern(action, #[trigger] s.actions[i]),
{
}

/// The order of the patterns of a statement does not matter.
pub proof fn order_of_patterns_does_not_matter(
    s: StatementView,
    t: StatementView,
    action: Seq<char>,
)
    requires
        s.actions.to_set() == t.actions.to_set(),
    ensures
        covers(s, action) == covers(t, action),
{
    if covers(s, action) {
        let i = choose|i: int|
            0 <= i < s.actions.len() && matches_pattern(action, #[trigger] s.actions[i]);
        assert(s.actions.to_set().contains(s.actions[i]));
        assert(t.actions.to_set().contains(s.actions[i]));
        let j = choose|j: int| 0 <= j < t.actions.len() && t.actions[j] == s.actions[i];
        assert(matches_pattern(action, t.actions[j]));
    }
    if covers(t, action) {
        let i = choose|i: int|
            0 <= i < t.actions.len() && matches_pattern(action, #[trigger] t.actions[i]);
        assert(t.actions.to_set().contains(t.actions[i]));
        assert(s.actions.to_set().contains(t.actions[i]));
        let j = choose|j: int| 0 <= j < s.actions.len() && s.actions[j] == t.actions[i];
        assert(matches_pattern(action, s.actions[j]));
    }
}

/// More patterns cover more actions: a statement with an added pattern covers what it covered before
/// and what the pattern stands for.
pub proof fn added_patterns_cover_more(
    s: StatementView,
    t: StatementView,
    pattern: Seq<char>,
    action: Seq<char>,
)
    requires
        t.actions == s.actions.push(pattern),
    ensures
        covers(t, action) == (covers(s, action) || matches_pattern(action, pattern)),
{
    if covers(s, action) {
        let i = choose|i: int|
            0 <= i < s.actions.len() && matches_pattern(action, #[trigger] s.actions[i]);
        assert(t.actions[i] == s.actions[i]);
    }
    assert(t.actions[s.actions.len() as int] == pattern);
    if covers(t, action) {
        let i = choose|i: int|
            0 <= i < t.actions.len() && matches_pattern(action, #[trigger] t.actions[i]);
        if i < s.actions.len() {
            assert(t.actions[i] == s.actions[i]);
        }
    }
}

/// What a policy says about an action, in terms of its statements: the action is denied if a
/// statement that denies has a pattern for it, and allowed if one that allows has; its conditions are
/// those of all statements that allow it, and its resources those of the ones among them that do not
/// hold for all resources.
pub proof fn every_statement_counts(r: ActionStatus, ss: Seq<StatementView>, action: Seq<char>)
    requires
        is_status(r, ss, action),
    ensures
        r.denied <==> exists|i: int, j: int|
            #![trigger ss[i].actions[j]]
            0 <= i < ss.len() && 0 <= j < ss[i].actions.len() && ss[i].effect == Effect::Deny
                && matches_pattern(action, ss[i].actions[j]),
        r.allowed <==> exists|i: int, j: int|
            #![trigger ss[i].actions[j]]
            0 <= i < ss.len() && 0 <= j < ss[i].actions.len() && ss[i].effect == Effect::Allow
                && matches_pattern(action, ss[i].actions[j]),
        forall|x: Seq<char>| #[trigger]
            texts(r.conditions@).contains(x) <==> exists|i: int|
                0 <= i < ss.len() && (#[trigger] ss[i]).effect == Effect::Allow && covers(
                    ss[i],
                    action,
                ) && ss[i].conditions.contains(x),
        forall|x: Seq<char>| #[trigger]
            texts(r.restricted_resources@).contains(x) <==> exists|i: int|
                0 <= i < ss.len() && (#[trigger] ss[i]).effect == Effect::Allow && covers(
                    ss[i],
                    action,
                ) && ss[i].resources.contains(x) && !ss[i].resources.contains("*"@),
{
    if exists|i: int| 0 <= i < ss.len() && denies(#[trigger] ss[i], action) {
        let i = choose|i: int| 0 <= i < ss.len() && denies(#[trigger] ss[i], action);
        let j = choose|j: int|
            0 <= j < ss[i].actions.len() && matches_pattern(action, #[trigger] ss[i].actions[j]);
        assert(matches_pattern(action, ss[i].actions[j]));
    }
    assert forall|i: int, j: int|
        #![trigger ss[i].actions[j]]
        0 <= i < ss.len() && 0 <= j < ss[i].actions.len() && ss[i].effect == Effect::Deny
            && matches_pattern(action, ss[i].actions[j]) implies r.denied by {
        assert(denies(ss[i], action));
    }
    if exists|i: int| 0 <= i < ss.len() && allows(#[trigger] ss[i], action) {
        let i = choose|i: int| 0 <= i < ss.len() && allows(#[trigger] ss[i], action);
        let j = choose|j: int|
            0 <= j < ss[i].actions.len() && matches_pattern(action, #[trigger] ss[i].actions[j]);
        assert(matches_pattern(action, ss[i].actions[j]));
    }
    assert forall|i: int, j: int|
        #![trigger ss[i].actions[j]]
        0 <= i < ss.len() && 0 <= j < ss[i].actions.len() && ss[i].effect == Effect::Allow
            && matches_pattern(action, ss[i].actions[j]) implies r.allowed by {
        assert(allows(ss[i], action));
    }
    assert forall|x: Seq<char>| #[trigger]
        texts(r.conditions@).contains(x) <==> exists|i: int|
            0 <= i < ss.len() && (#[trigger] ss[i]).effect == Effect::Allow && covers(ss[i], action)
                && ss[i].conditions.contains(x) by {
        lemma_collected(ss, action, x);
        lemma_same_items(texts(r.conditions@), allowing_conditions(ss, action), x);
    }
    assert forall|x: Seq<char>| #[trigger]
        texts(r.restricted_resources@).contains(x) <==> exists|i: int|
            0 <= i < ss.len() && (#[trigger] ss[i]).effect == Effect::Allow && covers(ss[i], action)
                && ss[i].resources.contains(x) && !ss[i].resources.contains("*"@) by {
        lemma_collected(ss, action, x);
        lemma_same_items(texts(r.restricted_resources@), allowing_restrictions(ss, action), x);
    }
}

proof fn lemma_same_items(r: Seq<Seq<char>>, s: Seq<Seq<char>>, x: Seq<char>)
    requires
        sorted_set_of(r, s),
    ensures
        r.contains(x) == s.contains(x),
{
    assert(r.to_set().contains(x) == r.contains(x));
    assert(s.to_set().contains(x) == s.contains(x));
}

spec fn gives_condition(s: StatementView, action: Seq<char>, x: Seq<char>) -> bool {
    s.effect == Effect::Allow && covers(s, action) && s.conditions.contains(x)
}

spec fn gives_resource(s: StatementView, action: Seq<char>, x: Seq<char>) -> bool {
    s.effect == Effect::Allow && covers(s, action) && s.resources.contains(x)
        && !s.resources.contains("*"@)
}

proof fn lemma_collected(ss: Seq<StatementView>, action: Seq<char>, x: Seq<char>)
    ensures
        allowing_conditions(ss, action).contains(x) <==> exists|i: int|
            0 <= i < ss.len() && gives_condition(#[trigger] ss[i], action, x),
        allowing_restrictions(ss, action).contains(x) <==> exists|i: int|
            0 <= i < ss.len() && gives_resource(#[trigger] ss[i], action, x),
    decreases ss.len(),
{
    broadcast use lemma_seq_concat_contains_all_elements;

    if ss.len() > 0 {
        let t = ss.drop_last();
        lemma_collected(t, action, x);
        assert(ss[ss.len() - 1] == ss.last());
        if exists|i: int| 0 <= i < t.len() && gives_condition(#[trigger] t[i], action, x) {
            let i = choose|i: int| 0 <= i < t.len() && gives_condition(#[trigger] t[i], action, x);
            assert(gives_condition(ss[i], action, x));
        }
        if exists|i: int| 0 <= i < t.len() && gives_resource(#[trigger] t[i], action, x) {
            let i = choose|i: int| 0 <= i < t.len() && gives_resource(#[trigger] t[i], action, x);
            assert(gives_resource(ss[i], action, x));
        }
        assert forall|i: int| 0 <= i < t.len() implies t[i] == ss[i] by {}
    }
}

/// A statement counts as it stands if its effect is `Allow` or `Deny`: with all its patterns, all its
/// resources and its conditions. Others do not count.
pub proof fn statements_are_read_as_they_stand(raw: RawStatement)
    ensures
        parsed(raw) is Some <==> raw.effect@ == "Allow"@ || raw.effect@ == "Deny"@,
        raw.effect@ == "Allow"@ ==> parsed(raw)->0.effect == Effect::Allow,
        raw.effect@ == "Deny"@ ==> parsed(raw)->0.effect == Effect::Deny,
        parsed(raw) matches Some(s) ==> s.actions == raw.action@ && s.resources == raw.resource@
            && s.conditions == (match raw.condition {
            Some(c) => condition_texts(c),
            None => Seq::empty(),
        }),
{
    reveal_strlit("Allow");
    reveal_strlit("Deny");
    assert("Allow"@.len() == 5 && "Deny"@.len() == 4);
}

/// Statements are read one by one, in their order.
pub proof fn statements_are_read_one_by_one(
    a: Seq<RawStatement>,
    s: RawStatement,
    b: Seq<RawStatement>,
)
    ensures
        parsed_all(a + seq![s] + b) == parsed_all(a) + (match parsed(s) {
            Some(p) => seq![p],
            None => Seq::empty(),
        }) + parsed_all(b),
    decreases b.len(),
{
    let v = a + seq![s] + b;
    let own = match parsed(s) {
        Some(p) => seq![p],
        None => Seq::empty(),
    };
    if b.len() == 0 {
        assert(v.drop_last() =~= a);
        assert(v.last() == s);
        assert(parsed_all(v) =~= parsed_all(a) + own + parsed_all(b));
    } else {
        let t = b.drop_last();
        statements_are_read_one_by_one(a, s, t);
        assert(v.drop_last() =~= a + seq![s] + t);
        assert(v.last() == b.last());
        assert(parsed_all(v) =~= parsed_all(a) + own + parsed_all(b));
    }
}

/// A document has the statements that are written in it.
pub proof fn documents_have_their_statements(
    doc: PolicyDocument,
    s: Box<RawStatement>,
    v: Vec<RawStatement>,
)
    ensures
        doc.statement == StatementOrVec::Single(s) ==> statements_of(doc) == seq![*s],
        doc.statement == StatementOrVec::Multiple(v) ==> statements_of(doc) == v@,
{
}

/// An action is allowed by a document exactly if a statement with the effect `Allow` has a pattern
/// for it, and denied exactly if one with the effect `Deny` has.
pub proof fn documents_answer_for_actions(
    raws: Seq<RawStatement>,
    r: ActionStatus,
    action: Seq<char>,
)
    requires
        is_status(r, parsed_all(raws), action),
    ensures
        r.allowed <==> exists|i: int, j: int|
            #![trigger raws[i].action@[j]]
            0 <= i < raws.len() && 0 <= j < raws[i].action@.len() && raws[i].effect@ == "Allow"@
                && matches_pattern(action, raws[i].action@[j]),
        r.denied <==> exists|i: int, j: int|
            #![trigger raws[i].action@[j]]
            0 <= i < raws.len() && 0 <= j < raws[i].action@.len() && raws[i].effect@ == "Deny"@
                && matches_pattern(action, raws[i].action@[j]),
{
    let ss = parsed_all(raws);
    every_statement_counts(r, ss, action);
    if r.allowed {
        let (k, j) = choose|k: int, j: int|
            #![trigger ss[k].actions[j]]
            0 <= k < ss.len() && 0 <= j < ss[k].actions.len() && ss[k].effect == Effect::Allow
                && matches_pattern(action, ss[k].actions[j]);
        let i = lemma_where_read(raws, k);
        statements_are_read_as_they_stand(raws[i]);
        assert(matches_pattern(action, raws[i].action@[j]));
    }
    if r.denied {
        let (k, j) = choose|k: int, j: int|
            #![trigger ss[k].actions[j]]
            0 <= k < ss.len() && 0 <= j < ss[k].actions.len() && ss[k].effect == Effect::Deny
                && matches_pattern(action, ss[k].actions[j]);
        let i = lemma_where_read(raws, k);
        statements_are_read_as_they_stand(raws[i]);
        assert(matches_pattern(action, raws[i].action@[j]));
    }
    assert forall|i: int, j: int|
        #![trigger raws[i].action@[j]]
        0 <= i < raws.len() && 0 <= j < raws[i].action@.len() && matches_pattern(
            action,
            raws[i].action@[j],
        ) implies (raws[i].effect@ == "Allow"@ ==> r.allowed) && (raws[i].effect@ == "Deny"@
        ==> r.denied) by {
        statements_are_read_as_they_stand(raws[i]);
        if parsed(raws[i]) is Some {
            let k = lemma_is_read(raws, i);
            assert(ss[k].actions[j] == raws[i].action@[j]);
        }
    }
}

proof fn lemma_where_read(raws: Seq<RawStatement>, k: int) -> (i: int)
    requires
        0 <= k < parsed_all(raws).len(),
    ensures
        0 <= i < raws.len(),
        parsed(raws[i]) == Some(parsed_all(raws)[k]),
    decreases raws.len(),
{
    let t = raws.drop_last();
    if k < parsed_all(t).len() {
        let i = lemma_where_read(t, k);
        assert(t[i] == raws[i]);
        i
    } else {
        raws.len() - 1
    }
}

proof fn lemma_is_read(raws: Seq<RawStatement>, i: int) -> (k: int)
    requires
        0 <= i < raws.len(),
        parsed(raws[i]) is Some,
    ensures
        0 <= k < parsed_all(raws).len(),
        parsed(raws[i]) == Some(parsed_all(raws)[k]),
    decreases raws.len(),
{
    let t = raws.drop_last();
    if i < t.len() {
        assert(t[i] == raws[i]);
        let k = lemma_is_read(t, i);
        assert(parsed_all(raws)[k] == parsed_all(t)[k]);
        k
    } else {
        parsed_all(t).len() as int
    }
}

/// A statement that holds for all resources restricts none, and another one all that it names.
pub proof fn resources_restrict_statements(s: StatementView)
    ensures
        s.resources.contains("*"@) ==> restriction(s).len() == 0,
        !s.resources.contains("*"@) ==> restriction(s) == s.resources,
{
}

/// The keys of an operator are put in words one by one: `Operator: key = value`, with the texts of a
/// list joined by commas. Other values say nothing.
pub proof fn keys_are_put_in_words_one_by_one(
    operator: Seq<char>,
    a: Seq<(String, JsonValue)>,
    key: (String, JsonValue),
    b: Seq<(String, JsonValue)>,
)
    ensures
        operator_conditions(operator, a + seq![key] + b) == operator_conditions(operator, a) + (
        match key.1 {
            JsonValue::Text(s) => seq![operator + ": "@ + key.0@ + " = "@ + s@],
            JsonValue::List(vs) => seq![
                operator + ": "@ + key.0@ + " = "@ + joined(json_texts(vs@), ", "@),
            ],
            _ => Seq::empty(),
        }) + operator_conditions(operator, b),
    decreases b.len(),
{
    let v = a + seq![key] + b;
    let all = operator_conditions(operator, v);
    if b.len() == 0 {
        assert(v.drop_last() =~= a);
        assert(v.last() == key);
        assert(operator_conditions(operator, b) =~= Seq::<Seq<char>>::empty());
    } else {
        let t = b.drop_last();
        keys_are_put_in_words_one_by_one(operator, a, key, t);
        assert(v.drop_last() =~= a + seq![key] + t);
        assert(v.last() == b.last());
    }
    assert(all =~= operator_conditions(operator, a) + (match key.1 {
        JsonValue::Text(s) => seq![operator + ": "@ + key.0@ + " = "@ + s@],
        JsonValue::List(vs) => seq![
            operator + ": "@ + key.0@ + " = "@ + joined(json_texts(vs@), ", "@),
        ],
        _ => Seq::empty(),
    }) + operator_conditions(operator, b));
}

/// The operators of a condition are put in words one by one.
pub proof fn operators_are_put_in_words_one_by_one(
    a: Seq<(String, JsonValue)>,
    operator: (String, JsonValue),
    b: Seq<(String, JsonValue)>,
)
    ensures
        conditions_in(a + seq![operator] + b) == conditions_in(a) + (match operator.1 {
            JsonValue::Object(keys) => operator_conditions(operator.0@, keys@),
            _ => Seq::empty(),
        }) + conditions_in(b),
    decreases b.len(),
{
    let v = a + seq![operator] + b;
    if b.len() == 0 {
        assert(v.drop_last() =~= a);
        assert(v.last() == operator);
        assert(conditions_in(b) =~= Seq::<Seq<char>>::empty());
    } else {
        let t = b.drop_last();
        operators_are_put_in_words_one_by_one(a, operator, t);
        assert(v.drop_last() =~= a + seq![operator] + t);
        assert(v.last() == b.last());
    }
    assert(conditions_in(v) =~= conditions_in(a) + (match operator.1 {
        JsonValue::Object(keys) => operator_conditions(operator.0@, keys@),
        _ => Seq::empty(),
    }) + conditions_in(b));
}

/// The conditions of a statement are those of its operators; what is no object has none.
pub proof fn conditions_are_those_of_operators(c: JsonValue, operators: Vec<(String, JsonValue)>)
    ensures
        c == JsonValue::Object(operators) ==> condition_texts(c) == conditions_in(operators@),
        c !is Object ==> condition_texts(c).len() == 0,
{
}

/// The conditions and resources of an answer stand in alphabetical order, each once.
pub proof fn answers_are_sorted(
    r: ActionStatus,
    ss: Seq<StatementView>,
    action: Seq<char>,
    i: int,
    j: int,
)
    requires
        is_status(r, ss, action),
    ensures
        0 <= i < j < texts(r.conditions@).len() ==> crate::text::text_lt(
            texts(r.conditions@)[i],
            texts(r.conditions@)[j],
        ),
        0 <= i < j < texts(r.restricted_resources@).len() ==> crate::text::text_lt(
            texts(r.restricted_resources@)[i],
            texts(r.restricted_resources@)[j],
        ),
{
}

/// Two answers about an action of a policy are the same.
pub proof fn policies_give_one_answer(
    a: ActionStatus,
    b: ActionStatus,
    ss: Seq<StatementView>,
    action: Seq<char>,
)
    requires
        is_status(a, ss, action),
        is_status(b, ss, action),
    ensures
        a.allowed == b.allowed,
        a.denied == b.denied,
        texts(a.conditions@) == texts(b.conditions@),
        texts(a.restricted_resources@) == texts(b.restricted_resources@),
{
    crate::order::sorted_sets_are_unique(
        texts(a.conditions@),
        texts(b.conditions@),
        allowing_conditions(ss, action),
    );
    crate::order::sorted_sets_are_unique(
        texts(a.restricted_resources@),
        texts(b.restricted_resources@),
        allowing_restrictions(ss, action),
    );
}

} // verus!
