//! Holds required actions against an existing IAM policy.

use vstd::prelude::*;

use crate::json::{json_texts, texts_in, JsonValue};
use crate::order::{sorted_set, sorted_set_of};
use crate::sdk::copy_texts;
use crate::text::{chars_of, contains_text, join, joined, same, texts};

verus! {

/// Whether an action is one of those that a pattern stands for. In a pattern `*` stands for any
/// characters and `?` for any one character, as in the patterns of IAM. Capitals and small letters
/// differ; that they do is a choice of this library.
pub open spec fn matches_pattern(action: Seq<char>, pattern: Seq<char>) -> bool
    decreases pattern.len() + action.len(),
{
    if pattern.len() == 0 {
        action.len() == 0
    } else {
        let rest = pattern.subrange(1, pattern.len() as int);
        if pattern[0] == '*' {
            matches_pattern(action, rest) || (action.len() > 0 && matches_pattern(
                action.subrange(1, action.len() as int),
                pattern,
            ))
        } else {
            action.len() > 0 && (pattern[0] == '?' || pattern[0] == action[0]) && matches_pattern(
                action.subrange(1, action.len() as int),
                rest,
            )
        }
    }
}

spec fn tail(s: Seq<char>, i: int) -> Seq<char> {
    s.subrange(i, s.len() as int)
}

proof fn lemma_tail(s: Seq<char>, i: int)
    requires
        0 <= i < s.len(),
    ensures
        tail(s, i).len() == s.len() - i,
        tail(s, i)[0] == s[i],
        tail(s, i).subrange(1, tail(s, i).len() as int) == tail(s, i + 1),
{
    assert(tail(s, i).subrange(1, tail(s, i).len() as int) =~= tail(s, i + 1));
}

/// `row[j]` tells for each `j` whether the pattern `p` stands for the action from `j` on.
spec fn is_row(row: Seq<bool>, a: Seq<char>, p: Seq<char>) -> bool {
    &&& row.len() == a.len() + 1
    &&& forall|j: int|
        0 <= j <= a.len() ==> #[trigger] row[j] == matches_pattern(tail(a, j), p)
}

/// The row of a pattern from the row of what stands behind its first character.
fn row_before(a: &Vec<char>, c: char, row: &Vec<bool>, Ghost(p): Ghost<Seq<char>>) -> (r: Vec<bool>)
    requires
        p.len() > 0,
        p[0] == c,
        is_row(row@, a@, p.subrange(1, p.len() as int)),
    ensures
        is_row(r@, a@, p),
{
    let n: usize = a.len();
    let ghost below = p.subrange(1, p.len() as int);
    // The entries from the last one down.
    let mut down: Vec<bool> = Vec::new();
    let mut m: usize = 0;
    while m < row.len()
        invariant
            m <= row@.len(),
            n == a@.len(),
            down@.len() == m,
            p.len() > 0,
            p[0] == c,
            below == p.subrange(1, p.len() as int),
            is_row(row@, a@, below),
            forall|q: int|
                0 <= q < m ==> #[trigger] down@[q] == matches_pattern(tail(a@, n - q), p),
        decreases row@.len() - m,
    {
        let j: usize = n - m;
        proof {
            assert(row@[j as int] == matches_pattern(tail(a@, j as int), below));
            if j < n {
                lemma_tail(a@, j as int);
                assert(row@[j + 1] == matches_pattern(tail(a@, j + 1), below));
                assert(down@[m - 1] == matches_pattern(tail(a@, n - (m - 1)), p));
            } else {
                assert(tail(a@, j as int).len() == 0);
            }
        }
        let matched = if c == '*' {
            row[j] || (j < n && down[m - 1])
        } else {
            j < n && (c == '?' || c == a[j]) && row[j + 1]
        };
        down.push(matched);
        m = m + 1;
    }
    let mut out: Vec<bool> = Vec::new();
    let mut q: usize = 0;
    while q < down.len()
        invariant
            q <= down@.len(),
            n == a@.len(),
            down@.len() == n + 1,
            out@.len() == q,
            forall|j: int|
                0 <= j <= n ==> #[trigger] down@[j] == matches_pattern(tail(a@, n - j), p),
            forall|j: int| 0 <= j < q ==> #[trigger] out@[j] == matches_pattern(tail(a@, j), p),
        decreases down@.len() - q,
    {
        assert(down@[n - q] == matches_pattern(tail(a@, n - (n - q)), p));
        out.push(down[n - q]);
        q = q + 1;
    }
    out
}

/// Whether an action is one of those that a pattern stands for. Capitals and small letters differ.
pub fn action_matches_pattern(action: &str, pattern: &str) -> (r: bool)
    ensures
        r == matches_pattern(action@, pattern@),
{
    let a = chars_of(action);
    let p = chars_of(pattern);
    let mut row: Vec<bool> = Vec::new();
    let ghost none = tail(p@, p@.len() as int);
    let mut k: usize = 0;
    while k < a.len()
        invariant
            k <= a@.len(),
            row@.len() == k,
            none.len() == 0,
            forall|j: int| 0 <= j < k ==> #[trigger] row@[j] == matches_pattern(tail(a@, j), none),
        decreases a@.len() - k,
    {
        assert(tail(a@, k as int).len() > 0);
        row.push(false);
        k = k + 1;
    }
    assert(tail(a@, k as int).len() == 0);
    row.push(true);
    let mut i: usize = p.len();
    while i > 0
        invariant
            i <= p@.len(),
            is_row(row@, a@, tail(p@, i as int)),
        decreases i,
    {
        proof {
            lemma_tail(p@, i - 1);
        }
        row = row_before(&a, p[i - 1], &row, Ghost(tail(p@, i - 1)));
        i = i - 1;
    }
    proof {
        assert(tail(a@, 0) =~= a@);
        assert(tail(p@, 0) =~= p@);
    }
    row[0]
}

/// The pattern `*` stands for every action.
pub proof fn star_matches_every_action(a: Seq<char>)
    ensures
        matches_pattern(a, seq!['*']),
    decreases a.len(),
{
    let star = seq!['*'];
    let rest = star.subrange(1, 1);
    assert(rest.len() == 0);
    if a.len() == 0 {
        assert(matches_pattern(a, rest));
    } else {
        star_matches_every_action(a.subrange(1, a.len() as int));
    }
}

/// A pattern without wildcards stands for itself only.
pub proof fn plain_patterns_match_themselves_only(a: Seq<char>, p: Seq<char>)
    requires
        !p.contains('*'),
        !p.contains('?'),
    ensures
        matches_pattern(a, p) == (a == p),
    decreases p.len(),
{
    if p.len() == 0 {
        if a.len() == 0 {
            assert(a =~= p);
        }
    } else {
        let rest = p.subrange(1, p.len() as int);
        assert(p.contains(p[0]));
        assert forall|c: char| rest.contains(c) implies p.contains(c) by {
            let k = choose|k: int| 0 <= k < rest.len() && rest[k] == c;
            assert(p[k + 1] == c);
        }
        if a.len() > 0 {
            let after = a.subrange(1, a.len() as int);
            plain_patterns_match_themselves_only(after, rest);
            if a[0] == p[0] && after == rest {
                assert(a =~= seq![a[0]] + after);
                assert(p =~= seq![p[0]] + rest);
            }
        }
    }
}

/// What a reference policy says about an action.
#[derive(Debug, PartialEq, Eq)]
pub struct ActionStatus {
    pub denied: bool,
    pub allowed: bool,
    /// The conditions of the statements that allow the action.
    pub conditions: Vec<String>,
    /// The resources of the statements that allow the action, where they are not all resources.
    pub restricted_resources: Vec<String>,
}

impl ActionStatus {
    /// Whether the action is allowed without conditions and for all resources.
    #[must_use]
    pub fn is_fully_allowed(&self) -> (r: bool)
        ensures
            r == (self.allowed && self.conditions@.len() == 0 && self.restricted_resources@.len()
                == 0),
    {
        self.allowed && self.conditions.len() == 0 && self.restricted_resources.len() == 0
    }

    /// Whether no statement speaks of the action.
    #[must_use]
    pub fn is_missing(&self) -> (r: bool)
        ensures
            r == (!self.allowed && !self.denied),
    {
        !self.allowed && !self.denied
    }
}

/// One text, several, or none.
#[derive(Debug)]
pub enum StringOrVec {
    Single(String),
    Multiple(Vec<String>),
    Empty,
}

impl View for StringOrVec {
    type V = Seq<Seq<char>>;

    open spec fn view(&self) -> Seq<Seq<char>> {
        match self {
            StringOrVec::Single(s) => seq![s@],
            StringOrVec::Multiple(v) => texts(v@),
            StringOrVec::Empty => Seq::empty(),
        }
    }
}

impl StringOrVec {
    pub fn to_vec(&self) -> (r: Vec<String>)
        ensures
            texts(r@) == self@,
    {
        match self {
            StringOrVec::Single(s) => {
                let r = vec![s.clone()];
                assert(texts(r@) =~= seq![s@]);
                r
            },
            StringOrVec::Multiple(v) => copy_texts(v),
            StringOrVec::Empty => {
                let r: Vec<String> = Vec::new();
                assert(texts(r@) =~= Seq::<Seq<char>>::empty());
                r
            },
        }
    }
}

/// A statement of a policy document.
#[derive(Debug)]
pub struct RawStatement {
    pub effect: String,
    pub action: StringOrVec,
    pub resource: StringOrVec,
    pub condition: Option<JsonValue>,
}

/// One statement, or several.
#[derive(Debug)]
pub enum StatementOrVec {
    Single(Box<RawStatement>),
    Multiple(Vec<RawStatement>),
}

/// A policy document with its statements.
#[derive(Debug)]
pub struct PolicyDocument {
    pub statement: StatementOrVec,
}

/// The statements of a document. One that stands alone counts as a list of one.
pub open spec fn statements_of(doc: PolicyDocument) -> Seq<RawStatement> {
    match doc.statement {
        StatementOrVec::Single(s) => seq![*s],
        StatementOrVec::Multiple(v) => v@,
    }
}

#[derive(Debug, Clone, Copy, PartialEq, Eq, Structural)]
pub enum Effect {
    Allow,
    Deny,
}

/// A statement that can be held against actions.
#[derive(Debug)]
pub struct ParsedStatement {
    pub effect: Effect,
    pub actions: Vec<String>,
    pub resources: Vec<String>,
    pub conditions: Vec<String>,
}

pub struct StatementView {
    pub effect: Effect,
    pub actions: Seq<Seq<char>>,
    pub resources: Seq<Seq<char>>,
    pub conditions: Seq<Seq<char>>,
}

impl View for ParsedStatement {
    type V = StatementView;

    open spec fn view(&self) -> StatementView {
        StatementView {
            effect: self.effect,
            actions: texts(self.actions@),
            resources: texts(self.resources@),
            conditions: texts(self.conditions@),
        }
    }
}

/// Whether one of the patterns of a statement stands for the action.
pub open spec fn covers(s: StatementView, action: Seq<char>) -> bool {
    exists|i: int|
        0 <= i < s.actions.len() && matches_pattern(action, #[trigger] s.actions[i])
}

pub open spec fn allows(s: StatementView, action: Seq<char>) -> bool {
    s.effect == Effect::Allow && covers(s, action)
}

pub open spec fn denies(s: StatementView, action: Seq<char>) -> bool {
    s.effect == Effect::Deny && covers(s, action)
}

/// The resources that a statement is restricted to; none if it holds for all resources.
pub open spec fn restriction(s: StatementView) -> Seq<Seq<char>> {
    if s.resources.contains("*"@) {
        Seq::empty()
    } else {
        s.resources
    }
}

/// The conditions of the statements that allow the action.
pub open spec fn allowing_conditions(ss: Seq<StatementView>, action: Seq<char>) -> Seq<Seq<char>>
    decreases ss.len(),
{
    if ss.len() == 0 {
        Seq::empty()
    } else if allows(ss.last(), action) {
        allowing_conditions(ss.drop_last(), action) + ss.last().conditions
    } else {
        allowing_conditions(ss.drop_last(), action)
    }
}

/// The resources that the statements that allow the action are restricted to.
pub open spec fn allowing_restrictions(ss: Seq<StatementView>, action: Seq<char>) -> Seq<Seq<char>>
    decreases ss.len(),
{
    if ss.len() == 0 {
        Seq::empty()
    } else if allows(ss.last(), action) {
        allowing_restrictions(ss.drop_last(), action) + restriction(ss.last())
    } else {
        allowing_restrictions(ss.drop_last(), action)
    }
}

/// The values of a condition key: a text, or the texts of a list.
pub open spec fn condition_values(v: JsonValue) -> Option<Seq<char>> {
    match v {
        JsonValue::Text(s) => Some(s@),
        JsonValue::List(vs) => Some(joined(json_texts(vs@), ", "@)),
        _ => None,
    }
}

/// The conditions that an operator puts on keys, each as `Operator: key = value`.
pub open spec fn operator_conditions(
    operator: Seq<char>,
    keys: Seq<(String, JsonValue)>,
) -> Seq<Seq<char>>
    decreases keys.len(),
{
    if keys.len() == 0 {
        Seq::empty()
    } else {
        let before = operator_conditions(operator, keys.drop_last());
        match condition_values(keys.last().1) {
            Some(values) => before.push(operator + ": "@ + keys.last().0@ + " = "@ + values),
            None => before,
        }
    }
}

pub open spec fn conditions_in(operators: Seq<(String, JsonValue)>) -> Seq<Seq<char>>
    decreases operators.len(),
{
    if operators.len() == 0 {
        Seq::empty()
    } else {
        let before = conditions_in(operators.drop_last());
        match operators.last().1 {
            JsonValue::Object(keys) => before + operator_conditions(operators.last().0@, keys@),
            _ => before,
        }
    }
}

/// The conditions of a statement in words.
pub open spec fn condition_texts(condition: JsonValue) -> Seq<Seq<char>> {
    match condition {
        JsonValue::Object(operators) => conditions_in(operators@),
        _ => Seq::empty(),
    }
}

fn append_conditions(out: &mut Vec<String>, operator: &str, keys: &Vec<(String, JsonValue)>)
    ensures
        texts(final(out)@) == texts(old(out)@) + operator_conditions(operator@, keys@),
{
    let ghost start = texts(out@);
    let mut i: usize = 0;
    assert(keys@.subrange(0, 0).len() == 0);
    assert(start + operator_conditions(operator@, keys@.subrange(0, 0)) =~= start);
    while i < keys.len()
        invariant
            i <= keys@.len(),
            texts(out@) == start + operator_conditions(operator@, keys@.subrange(0, i as int)),
        decreases keys@.len() - i,
    {
        let ghost u = keys@.subrange(0, i + 1);
        let ghost before = texts(out@);
        assert(u.drop_last() =~= keys@.subrange(0, i as int));
        assert(u.last() == keys@[i as int]);
        let values = match &keys[i].1 {
            JsonValue::Text(s) => Some(s.clone()),
            JsonValue::List(vs) => {
                let found = texts_in(vs);
                Some(join(&found, ", "))
            },
            _ => None,
        };
        match values {
            Some(v) => {
                let mut line = operator.to_string();
                line.append(": ");
                line.append(keys[i].0.as_str());
                line.append(" = ");
                line.append(v.as_str());
                let ghost text = line@;
                out.push(line);
                assert(texts(out@) =~= before.push(text));
                assert(before.push(text) =~= start + operator_conditions(operator@, u));
            },
            None => {},
        }
        i = i + 1;
    }
    assert(keys@.subrange(0, keys@.len() as int) =~= keys@);
}

/// The conditions of a statement in words.
pub fn format_conditions(condition: &JsonValue) -> (r: Vec<String>)
    ensures
        texts(r@) == condition_texts(*condition),
{
    let mut out: Vec<String> = Vec::new();
    assert(texts(out@) =~= Seq::<Seq<char>>::empty());
    match condition {
        JsonValue::Object(operators) => {
            let mut i: usize = 0;
            assert(operators@.subrange(0, 0).len() == 0);
            while i < operators.len()
                invariant
                    i <= operators@.len(),
                    texts(out@) == conditions_in(operators@.subrange(0, i as int)),
                decreases operators@.len() - i,
            {
                let ghost u = operators@.subrange(0, i + 1);
                assert(u.drop_last() =~= operators@.subrange(0, i as int));
                assert(u.last() == operators@[i as int]);
                match &operators[i].1 {
                    JsonValue::Object(keys) => {
                        append_conditions(&mut out, operators[i].0.as_str(), keys);
                    },
                    _ => {},
                }
                i = i + 1;
            }
            assert(operators@.subrange(0, operators@.len() as int) =~= operators@);
        },
        _ => {},
    }
    out
}

/// The effect that a word names.
pub open spec fn effect_named(s: Seq<char>) -> Option<Effect> {
    if s == "Allow"@ {
        Some(Effect::Allow)
    } else if s == "Deny"@ {
        Some(Effect::Deny)
    } else {
        None
    }
}

/// The statement that can be held against actions, if its effect is known.
pub open spec fn parsed(raw: RawStatement) -> Option<StatementView> {
    match effect_named(raw.effect@) {
        Some(effect) => Some(
            StatementView {
                effect,
                actions: raw.action@,
                resources: raw.resource@,
                conditions: match raw.condition {
                    Some(c) => condition_texts(c),
                    None => Seq::empty(),
                },
            },
        ),
        None => None,
    }
}

/// The statements with a known effect, in their order.
pub open spec fn parsed_all(raws: Seq<RawStatement>) -> Seq<StatementView>
    decreases raws.len(),
{
    if raws.len() == 0 {
        Seq::empty()
    } else {
        match parsed(raws.last()) {
            Some(s) => parsed_all(raws.drop_last()).push(s),
            None => parsed_all(raws.drop_last()),
        }
    }
}

impl ParsedStatement {
    /// Whether one of the patterns of the statement stands for the action.
    pub fn matches_action(&self, action: &str) -> (r: bool)
        ensures
            r == covers(self@, action@),
    {
        let mut i: usize = 0;
        while i < self.actions.len()
            invariant
                i <= self.actions@.len(),
                forall|j: int|
                    0 <= j < i ==> !matches_pattern(action@, #[trigger] self@.actions[j]),
            decreases self.actions@.len() - i,
        {
            assert(self@.actions[i as int] == self.actions@[i as int]@);
            if action_matches_pattern(action, self.actions[i].as_str()) {
                return true;
            }
            i = i + 1;
        }
        false
    }
}

fn parse_statement(raw: &RawStatement) -> (r: Option<ParsedStatement>)
    ensures
        match r {
            Some(s) => parsed(*raw) == Some(s@),
            None => parsed(*raw) is None,
        },
{
    let effect = if same(raw.effect.as_str(), "Allow") {
        Effect::Allow
    } else if same(raw.effect.as_str(), "Deny") {
        Effect::Deny
    } else {
        return None;
    };
    let conditions = match &raw.condition {
        Some(c) => format_conditions(c),
        None => {
            let none: Vec<String> = Vec::new();
            assert(texts(none@) =~= Seq::<Seq<char>>::empty());
            none
        },
    };
    proof {
        reveal_strlit("Allow");
        reveal_strlit("Deny");
        assert("Allow"@.len() == 5 && "Deny"@.len() == 4);
    }
    Some(
        ParsedStatement {
            effect,
            actions: raw.action.to_vec(),
            resources: raw.resource.to_vec(),
            conditions,
        },
    )
}

/// A reference policy that actions can be held against.
#[derive(Debug)]
pub struct PolicyChecker {
    pub statements: Vec<ParsedStatement>,
}

pub open spec fn parsed_views(v: Seq<ParsedStatement>) -> Seq<StatementView> {
    v.map_values(|s: ParsedStatement| s@)
}

impl View for PolicyChecker {
    type V = Seq<StatementView>;

    open spec fn view(&self) -> Seq<StatementView> {
        parsed_views(self.statements@)
    }
}

/// Whether the status is what the statements say about an action.
pub open spec fn is_status(r: ActionStatus, ss: Seq<StatementView>, action: Seq<char>) -> bool {
    &&& r.denied == (exists|i: int| 0 <= i < ss.len() && denies(#[trigger] ss[i], action))
    &&& r.allowed == (exists|i: int| 0 <= i < ss.len() && allows(#[trigger] ss[i], action))
    &&& sorted_set_of(texts(r.conditions@), allowing_conditions(ss, action))
    &&& sorted_set_of(texts(r.restricted_resources@), allowing_restrictions(ss, action))
}

impl PolicyChecker {
    /// The checker of a policy document. Statements with an unknown effect do not count.
    pub fn from_document(doc: &PolicyDocument) -> (r: Self)
        ensures
            r@ == parsed_all(statements_of(*doc)),
    {
        let mut statements: Vec<ParsedStatement> = Vec::new();
        assert(parsed_views(statements@) =~= Seq::<StatementView>::empty());
        match &doc.statement {
            StatementOrVec::Single(s) => {
                let ghost raws = seq![**s];
                assert(parsed_all(raws.drop_last()).len() == 0);
                assert(raws.last() == **s);
                match parse_statement(s) {
                    Some(parsed) => {
                        statements.push(parsed);
                        assert(parsed_views(statements@) =~= parsed_all(raws));
                    },
                    None => {
                        assert(parsed_views(statements@) =~= parsed_all(raws));
                    },
                }
            },
            StatementOrVec::Multiple(v) => {
                let ghost raws = v@;
                let mut i: usize = 0;
                assert(raws.subrange(0, 0).len() == 0);
                while i < v.len()
                    invariant
                        i <= v@.len(),
                        raws == v@,
                        parsed_views(statements@) == parsed_all(raws.subrange(0, i as int)),
                    decreases v@.len() - i,
                {
                    let ghost u = raws.subrange(0, i + 1);
                    let ghost before = parsed_views(statements@);
                    assert(u.drop_last() =~= raws.subrange(0, i as int));
                    assert(u.last() == raws[i as int]);
                    match parse_statement(&v[i]) {
                        Some(s) => {
                            statements.push(s);
                            assert(parsed_views(statements@) =~= before.push(s@));
                        },
                        None => {},
                    }
                    i = i + 1;
                }
                assert(raws.subrange(0, raws.len() as int) =~= raws);
            },
        }
        PolicyChecker { statements }
    }

    /// What the policy says about an action. Conditions and resources are in alphabetical order,
    /// each once.
    #[must_use]
    pub fn check_action(&self, action: &str) -> (r: ActionStatus)
        ensures
            is_status(r, self@, action@),
    {
        let mut denied = false;
        let mut allowed = false;
        let mut conditions: Vec<String> = Vec::new();
        let mut resources: Vec<String> = Vec::new();
        let ghost ss = self@;
        let mut i: usize = 0;
        assert(texts(conditions@) =~= Seq::<Seq<char>>::empty());
        assert(texts(resources@) =~= Seq::<Seq<char>>::empty());
        assert(ss.subrange(0, 0).len() == 0);
        while i < self.statements.len()
            invariant
                i <= self.statements@.len(),
                ss == self@,
                denied == (exists|j: int| 0 <= j < i && denies(#[trigger] ss[j], action@)),
                allowed == (exists|j: int| 0 <= j < i && allows(#[trigger] ss[j], action@)),
                texts(conditions@) == allowing_conditions(ss.subrange(0, i as int), action@),
                texts(resources@) == allowing_restrictions(ss.subrange(0, i as int), action@),
            decreases self.statements@.len() - i,
        {
            let ghost u = ss.subrange(0, i + 1);
            let ghost old_conditions = texts(conditions@);
            let ghost old_resources = texts(resources@);
            let stmt = &self.statements[i];
            assert(u.drop_last() =~= ss.subrange(0, i as int));
            assert(u.last() == stmt@);
            assert(ss[i as int] == stmt@);
            if stmt.matches_action(action) {
                if stmt.effect == Effect::Deny {
                    denied = true;
                    assert(denies(ss[i as int], action@));
                } else {
                    allowed = true;
                    assert(allows(ss[i as int], action@));
                    let mut more = copy_texts(&stmt.conditions);
                    let ghost added = texts(more@);
                    conditions.append(&mut more);
                    assert(texts(conditions@) =~= old_conditions + added);
                    if !contains_text(&stmt.resources, "*") {
                        let mut more = copy_texts(&stmt.resources);
                        let ghost added = texts(more@);
                        resources.append(&mut more);
                        assert(texts(resources@) =~= old_resources + added);
                    } else {
                        assert(old_resources + Seq::<Seq<char>>::empty() =~= old_resources);
                    }
                }
            }
            i = i + 1;
        }
        assert(ss.subrange(0, ss.len() as int) =~= ss);
        ActionStatus {
            denied,
            allowed,
            conditions: sorted_set(&conditions),
            restricted_resources: sorted_set(&resources),
        }
    }
}

proof fn lemma_unknown_effect(raws: Seq<RawStatement>, i: int, raw: RawStatement)
    requires
        0 <= i <= raws.len(),
        effect_named(raw.effect@) is None,
    ensures
        parsed_all(raws.insert(i, raw)) == parsed_all(raws),
    decreases raws.len(),
{
    let more = raws.insert(i, raw);
    if i == raws.len() {
        assert(more.drop_last() =~= raws);
        assert(more.last() == raw);
    } else {
        lemma_unknown_effect(raws.drop_last(), i, raw);
        assert(more.drop_last() =~= raws.drop_last().insert(i, raw));
        assert(more.last() == raws.last());
    }
}

/// A statement whose effect is neither `Allow` nor `Deny` changes no answer, wherever it stands
/// among the others.
pub proof fn unknown_effects_change_no_answer(
    raws: Seq<RawStatement>,
    i: int,
    raw: RawStatement,
    action: Seq<char>,
    r: ActionStatus,
)
    requires
        0 <= i <= raws.len(),
        raw.effect@ != "Allow"@,
        raw.effect@ != "Deny"@,
    ensures
        parsed_all(raws.insert(i, raw)) == parsed_all(raws),
        is_status(r, parsed_all(raws.insert(i, raw)), action) == is_status(
            r,
            parsed_all(raws),
            action,
        ),
{
    lemma_unknown_effect(raws, i, raw);
}

/// A statement that stands alone is answered for as a list of that one statement.
pub proof fn statements_may_stand_alone(
    alone: PolicyDocument,
    listed: PolicyDocument,
    s: Box<RawStatement>,
    v: Vec<RawStatement>,
    action: Seq<char>,
    r: ActionStatus,
)
    requires
        alone.statement == StatementOrVec::Single(s),
        listed.statement == StatementOrVec::Multiple(v),
        v@ == seq![*s],
    ensures
        is_status(r, parsed_all(statements_of(alone)), action) == is_status(
            r,
            parsed_all(statements_of(listed)),
            action,
        ),
{
}

/// An action that an allowing statement covers without conditions and for all resources is fully
/// allowed, if no other statement that allows it is restricted.
pub proof fn unrestricted_actions_are_fully_allowed(
    ss: Seq<StatementView>,
    action: Seq<char>,
    conditions: Seq<Seq<char>>,
    resources: Seq<Seq<char>>,
)
    requires
        sorted_set_of(conditions, allowing_conditions(ss, action)),
        sorted_set_of(resources, allowing_restrictions(ss, action)),
        forall|i: int|
            0 <= i < ss.len() && allows(#[trigger] ss[i], action) ==> ss[i].conditions.len() == 0
                && restriction(ss[i]).len() == 0,
    ensures
        conditions.len() == 0,
        resources.len() == 0,
{
    lemma_nothing_collected(ss, action);
    if conditions.len() > 0 {
        assert(conditions.to_set().contains(conditions[0]));
        assert(allowing_conditions(ss, action).to_set().contains(conditions[0]));
    }
    if resources.len() > 0 {
        assert(resources.to_set().contains(resources[0]));
        assert(allowing_restrictions(ss, action).to_set().contains(resources[0]));
    }
}

proof fn lemma_nothing_collected(ss: Seq<StatementView>, action: Seq<char>)
    requires
        forall|i: int|
            0 <= i < ss.len() && allows(#[trigger] ss[i], action) ==> ss[i].conditions.len() == 0
                && restriction(ss[i]).len() == 0,
    ensures
        allowing_conditions(ss, action).len() == 0,
        allowing_restrictions(ss, action).len() == 0,
    decreases ss.len(),
{
    if ss.len() > 0 {
        let t = ss.drop_last();
        assert forall|i: int| 0 <= i < t.len() && allows(#[trigger] t[i], action) implies t[
            i
        ].conditions.len() == 0 && restriction(t[i]).len() == 0 by {
            assert(t[i] == ss[i]);
        }
        lemma_nothing_collected(t, action);
        assert(ss[ss.len() - 1] == ss.last());
    }
}

} // verus!
