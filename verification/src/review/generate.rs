//! The review comments on a change.

use vstd::prelude::*;

use crate::order::{insert_text, sorted_set, sorted_set_of, strictly_sorted};
use crate::paths::{extension, path_extension};
use crate::review::actions::{
    all_actions, extract_actions, extract_explanations, extract_individual_action_groups, explained,
    fas_text, groups_are, is_fas_action, is_groupable, ActionGroupView, GeneratePoliciesResult,
};
use crate::review::comment::{comment_body, format_comment_body, opt_groups, reasons_of};
use crate::review::diff::{line_ints, lines_of_file, AddedLines};
use crate::sdk::SdkMethodCall;
use crate::text::{contains_text, same, texts};
use crate::text_map::TextMap;

verus! {

/// What a review is made of.
#[derive(Debug)]
pub struct ReviewInput {
    /// The AWS region; `*` for any.
    pub region: String,
    /// The AWS account; `*` for any.
    pub account: String,
    /// The services to look at; all if there are none.
    pub service_hints: Option<Vec<String>>,
    /// Whether comments tell the reasons for actions.
    pub explain: bool,
    /// The source files before the change: path and text.
    pub base_files: Vec<(String, String)>,
    /// The source files after the change: path and text.
    pub head_files: Vec<(String, String)>,
    /// The unified diff of the change.
    pub diff: String,
}

/// A comment on a line of a file.
#[derive(Debug, PartialEq, Eq)]
pub struct ReviewComment {
    pub path: String,
    pub line: u32,
    pub body: String,
}

/// The languages whose files are reviewed.
#[derive(Debug, Clone, Copy, PartialEq, Eq, Structural)]
pub enum Language {
    Python,
    JavaScript,
    TypeScript,
    Go,
}

pub open spec fn language_of_extension(e: Seq<char>) -> Option<Language> {
    if e == "py"@ {
        Some(Language::Python)
    } else if e == "js"@ || e == "mjs"@ || e == "cjs"@ {
        Some(Language::JavaScript)
    } else if e == "ts"@ || e == "tsx"@ {
        Some(Language::TypeScript)
    } else if e == "go"@ {
        Some(Language::Go)
    } else {
        None
    }
}

pub open spec fn language_of_path(path: Seq<char>) -> Option<Language> {
    match path_extension(path) {
        Some(e) => language_of_extension(e),
        None => None,
    }
}

impl Language {
    pub open spec fn file_extension(self) -> Seq<char> {
        match self {
            Language::Python => "py"@,
            Language::JavaScript => "js"@,
            Language::TypeScript => "ts"@,
            Language::Go => "go"@,
        }
    }

    pub open spec fn name(self) -> Seq<char> {
        match self {
            Language::Python => "python"@,
            Language::JavaScript => "javascript"@,
            Language::TypeScript => "typescript"@,
            Language::Go => "go"@,
        }
    }

    /// The language of a file, by its extension.
    pub fn from_path(path: &str) -> (r: Option<Language>)
        ensures
            r == language_of_path(path@),
    {
        match extension(path) {
            Some(e) => {
                let e = e.as_str();
                if same(e, "py") {
                    Some(Language::Python)
                } else if same(e, "js") || same(e, "mjs") || same(e, "cjs") {
                    Some(Language::JavaScript)
                } else if same(e, "ts") || same(e, "tsx") {
                    Some(Language::TypeScript)
                } else if same(e, "go") {
                    Some(Language::Go)
                } else {
                    None
                }
            },
            None => None,
        }
    }

    /// The usual extension of the files of the language.
    pub fn extension(self) -> (r: &'static str)
        ensures
            r@ == self.file_extension(),
    {
        match self {
            Language::Python => "py",
            Language::JavaScript => "js",
            Language::TypeScript => "ts",
            Language::Go => "go",
        }
    }

    /// The name of the language.
    pub fn as_str(self) -> (r: &'static str)
        ensures
            r@ == self.name(),
    {
        match self {
            Language::Python => "python",
            Language::JavaScript => "javascript",
            Language::TypeScript => "typescript",
            Language::Go => "go",
        }
    }
}

/// A file with the usual extension of a language is of that language.
pub proof fn extensions_are_recognised(l: Language)
    ensures
        language_of_extension(l.file_extension()) == Some(l),
{
    reveal_strlit("py");
    reveal_strlit("js");
    reveal_strlit("mjs");
    reveal_strlit("cjs");
    reveal_strlit("ts");
    reveal_strlit("tsx");
    reveal_strlit("go");
    assert("py"@[0] != "js"@[0] && "py"@[0] != "ts"@[0] && "py"@[0] != "go"@[0]);
    assert("js"@[0] != "ts"@[0] && "js"@[0] != "go"@[0] && "ts"@[0] != "go"@[0]);
    assert("mjs"@.len() == 3 && "cjs"@.len() == 3 && "tsx"@.len() == 3);
    assert("py"@.len() == 2 && "js"@.len() == 2 && "ts"@.len() == 2 && "go"@.len() == 2);
}

pub open spec fn keys_of(v: Seq<(String, String)>) -> Seq<Seq<char>> {
    v.map_values(|p: (String, String)| p.0@)
}

/// The files of a supported language among the sorted files.
pub open spec fn supported(fs: Seq<Seq<char>>) -> Seq<(Seq<char>, Language)>
    decreases fs.len(),
{
    if fs.len() == 0 {
        Seq::empty()
    } else {
        match language_of_path(fs.last()) {
            Some(l) => supported(fs.drop_last()).push((fs.last(), l)),
            None => supported(fs.drop_last()),
        }
    }
}

pub open spec fn file_views(v: Seq<(String, Language)>) -> Seq<(Seq<char>, Language)> {
    v.map_values(|p: (String, Language)| (p.0@, p.1))
}

/// The files before and after the change that are of a supported language, in alphabetical order,
/// each once.
pub fn supported_files(
    base: &Vec<(String, String)>,
    head: &Vec<(String, String)>,
) -> (r: Vec<(String, Language)>)
    ensures
        exists|fs: Seq<Seq<char>>| #[trigger]
            sorted_set_of(fs, keys_of(base@) + keys_of(head@)) && file_views(r@) == supported(fs),
{
    let mut names: Vec<String> = Vec::new();
    let ghost b = keys_of(base@);
    let ghost h = keys_of(head@);
    let mut i: usize = 0;
    assert(texts(names@) =~= b.subrange(0, 0));
    while i < base.len()
        invariant
            i <= base@.len(),
            b == keys_of(base@),
            texts(names@) == b.subrange(0, i as int),
        decreases base@.len() - i,
    {
        let ghost before = texts(names@);
        names.push(base[i].0.clone());
        assert(texts(names@) =~= before.push(base@[i as int].0@));
        assert(b.subrange(0, i + 1) =~= b.subrange(0, i as int).push(b[i as int]));
        i = i + 1;
    }
    let mut i: usize = 0;
    assert(b.subrange(0, b.len() as int) + h.subrange(0, 0) =~= b.subrange(0, b.len() as int));
    assert(b.subrange(0, b.len() as int) =~= b);
    while i < head.len()
        invariant
            i <= head@.len(),
            h == keys_of(head@),
            texts(names@) == b + h.subrange(0, i as int),
        decreases head@.len() - i,
    {
        let ghost before = texts(names@);
        names.push(head[i].0.clone());
        assert(texts(names@) =~= before.push(head@[i as int].0@));
        assert(b + h.subrange(0, i + 1) =~= (b + h.subrange(0, i as int)).push(h[i as int]));
        i = i + 1;
    }
    assert(h.subrange(0, h.len() as int) =~= h);
    let files = sorted_set(&names);
    let ghost fs = texts(files@);
    let mut out: Vec<(String, Language)> = Vec::new();
    let mut i: usize = 0;
    assert(file_views(out@) =~= Seq::<(Seq<char>, Language)>::empty());
    assert(fs.subrange(0, 0).len() == 0);
    while i < files.len()
        invariant
            i <= files@.len(),
            fs == texts(files@),
            file_views(out@) == supported(fs.subrange(0, i as int)),
        decreases files@.len() - i,
    {
        let ghost u = fs.subrange(0, i + 1);
        let ghost before = file_views(out@);
        assert(u.drop_last() =~= fs.subrange(0, i as int));
        assert(u.last() == files@[i as int]@);
        match Language::from_path(files[i].as_str()) {
            Some(l) => {
                out.push((files[i].clone(), l));
                assert(file_views(out@) =~= before.push((files@[i as int]@, l)));
            },
            None => {},
        }
        i = i + 1;
    }
    assert(fs.subrange(0, fs.len() as int) =~= fs);
    out
}

/// The start lines of the calls.
pub open spec fn call_lines(calls: Seq<SdkMethodCall>) -> Seq<u32>
    decreases calls.len(),
{
    if calls.len() == 0 {
        Seq::empty()
    } else {
        match calls.last().metadata {
            Some(m) => call_lines(calls.drop_last()).push(
                #[verifier::truncate]
                (m.location.start_position.0 as u32),
            ),
            None => call_lines(calls.drop_last()),
        }
    }
}

/// The numbers increase.
pub open spec fn increasing(v: Seq<u32>) -> bool {
    forall|i: int, j: int| 0 <= i < j < v.len() ==> #[trigger] v[i] < #[trigger] v[j]
}

fn insert_line(v: &mut Vec<u32>, x: u32)
    requires
        increasing(old(v)@),
    ensures
        increasing(final(v)@),
        final(v)@.to_set() == old(v)@.to_set().insert(x),
{
    let ghost s = v@;
    let mut i: usize = 0;
    while i < v.len() && v[i] < x
        invariant
            i <= v@.len(),
            v@ == old(v)@,
            s == v@,
            forall|j: int| 0 <= j < i ==> #[trigger] s[j] < x,
        decreases v@.len() - i,
    {
        i = i + 1;
    }
    if i < v.len() && v[i] == x {
        assert(s[i as int] == x);
        assert(s.to_set() =~= s.to_set().insert(x));
        return;
    }
    v.insert(i, x);
    proof {
        let u = v@;
        assert(u =~= s.insert(i as int, x));
        assert forall|e: u32| u.to_set().contains(e) == s.to_set().insert(x).contains(e) by {
            if s.contains(e) {
                let k = choose|k: int| 0 <= k < s.len() && s[k] == e;
                if k < i {
                    assert(u[k] == e);
                } else {
                    assert(u[k + 1] == e);
                }
            }
            if u.contains(e) && e != x {
                let k = choose|k: int| 0 <= k < u.len() && u[k] == e;
                if k < i {
                    assert(s[k] == e);
                } else {
                    assert(s[k - 1] == e);
                }
            }
            assert(u[i as int] == x);
        }
        assert(u.to_set() =~= s.to_set().insert(x));
    }
}

/// The start lines of the calls, in increasing order, each once.
pub fn extract_sdk_call_lines(calls: &Vec<SdkMethodCall>) -> (r: Vec<u32>)
    ensures
        increasing(r@),
        r@.to_set() == call_lines(calls@).to_set(),
{
    let mut out: Vec<u32> = Vec::new();
    let ghost s = calls@;
    let mut i: usize = 0;
    assert(s.subrange(0, 0).len() == 0);
    assert(out@.to_set() =~= call_lines(s.subrange(0, 0)).to_set());
    while i < calls.len()
        invariant
            i <= calls@.len(),
            s == calls@,
            increasing(out@),
            out@.to_set() == call_lines(s.subrange(0, i as int)).to_set(),
        decreases calls@.len() - i,
    {
        let ghost u = s.subrange(0, i + 1);
        let ghost before = call_lines(s.subrange(0, i as int));
        assert(u.drop_last() =~= s.subrange(0, i as int));
        assert(u.last() == s[i as int]);
        match &calls[i].metadata {
            Some(m) => {
                #[verifier::truncate]
                let line: u32 = m.location.start_line() as u32;
                insert_line(&mut out, line);
                proof {
                    let now = before.push(line);
                    assert forall|e: u32| now.to_set().contains(e) == before.to_set().insert(
                        line,
                    ).contains(e) by {
                        if now.contains(e) && e != line {
                            let k = choose|k: int| 0 <= k < now.len() && now[k] == e;
                            assert(before[k] == e);
                        }
                        if before.contains(e) {
                            let k = choose|k: int| 0 <= k < before.len() && before[k] == e;
                            assert(now[k] == e);
                        }
                        assert(now[before.len() as int] == line);
                    }
                    assert(now.to_set() =~= before.to_set().insert(line));
                }
            },
            None => {},
        }
        i = i + 1;
    }
    assert(s.subrange(0, s.len() as int) =~= s);
    out
}

/// The smallest of the lines; 1 if there is none.
pub open spec fn is_first_line(r: u32, added: Seq<u32>) -> bool {
    if added.len() == 0 {
        r == 1
    } else {
        added.contains(r) && forall|i: int| 0 <= i < added.len() ==> r <= #[trigger] added[i]
    }
}

/// The smallest of the added lines; 1 if there is none.
pub fn first_added_line(added: &Vec<u32>) -> (r: u32)
    ensures
        is_first_line(r, added@),
{
    if added.len() == 0 {
        return 1;
    }
    let mut best: u32 = added[0];
    let mut i: usize = 1;
    assert(added@[0] == best);
    while i < added.len()
        invariant
            1 <= i <= added@.len(),
            added@.contains(best),
            forall|j: int| 0 <= j < i ==> best <= #[trigger] added@[j],
        decreases added@.len() - i,
    {
        if added[i] < best {
            best = added[i];
            assert(added@[i as int] == best);
        }
        i = i + 1;
    }
    best
}

/// The first of the lines `sdk` that is an added line.
pub open spec fn first_shared(sdk: Seq<u32>, added: Seq<u32>) -> Option<u32>
    decreases sdk.len(),
{
    if sdk.len() == 0 {
        None
    } else if added.contains(sdk[0]) {
        Some(sdk[0])
    } else {
        first_shared(sdk.subrange(1, sdk.len() as int), added)
    }
}

/// The line that a comment belongs to: the first SDK call on an added line, else the first added
/// line, else line 1.
pub open spec fn is_anchor(r: u32, sdk: Seq<u32>, added: Seq<u32>) -> bool {
    match first_shared(sdk, added) {
        Some(line) => r == line,
        None => is_first_line(r, added),
    }
}

fn contains_line(v: &Vec<u32>, x: u32) -> (r: bool)
    ensures
        r == v@.contains(x),
{
    let mut i: usize = 0;
    while i < v.len()
        invariant
            i <= v@.len(),
            forall|j: int| 0 <= j < i ==> v@[j] != x,
        decreases v@.len() - i,
    {
        if v[i] == x {
            return true;
        }
        i = i + 1;
    }
    false
}

/// The line that a comment belongs to, by the lines of the SDK calls and the added lines.
pub fn compute_anchor_line(sdk_lines: &Vec<u32>, added: &Vec<u32>) -> (r: u32)
    ensures
        is_anchor(r, sdk_lines@, added@),
{
    let ghost s = sdk_lines@;
    let mut i: usize = 0;
    assert(s.subrange(0, s.len() as int) =~= s);
    while i < sdk_lines.len()
        invariant
            i <= sdk_lines@.len(),
            s == sdk_lines@,
            first_shared(s, added@) == first_shared(s.subrange(i as int, s.len() as int), added@),
        decreases sdk_lines@.len() - i,
    {
        proof {
            let u = s.subrange(i as int, s.len() as int);
            assert(u[0] == s[i as int]);
            assert(u.subrange(1, u.len() as int) =~= s.subrange(i + 1, s.len() as int));
        }
        if contains_line(added, sdk_lines[i]) {
            return sdk_lines[i];
        }
        i = i + 1;
    }
    first_added_line(added)
}

/// Without added lines a comment belongs to line 1.
pub proof fn no_added_lines_anchor_at_one(r: u32, sdk: Seq<u32>)
    requires
        is_anchor(r, sdk, Seq::empty()),
    ensures
        r == 1,
    decreases sdk.len(),
{
    let none = Seq::<u32>::empty();
    if sdk.len() > 0 {
        let rest = sdk.subrange(1, sdk.len() as int);
        assert(!none.contains(sdk[0]));
        no_added_lines_anchor_at_one(r, rest);
    }
}

/// What analysis has found about one version of a file.
#[derive(Debug)]
pub enum Version {
    /// The file does not exist in this version.
    Missing,
    /// Policy generation failed.
    Failed,
    Analysed(GeneratePoliciesResult),
}

/// What analysis has found about one file.
#[derive(Debug)]
pub struct FileAnalysis {
    pub path: String,
    /// The file before the change.
    pub base: Version,
    /// The file after the change.
    pub head: Version,
    /// The lines of the SDK calls in the file after the change.
    pub sdk_lines: Vec<u32>,
}

/// Whether policy generation failed for a version of a file. Such a file is passed over.
pub open spec fn is_skipped(a: FileAnalysis) -> bool {
    a.base is Failed || a.head is Failed
}

/// The actions of a version; none if there is no result.
pub open spec fn result_actions(v: Version) -> Seq<Seq<char>> {
    match v {
        Version::Analysed(r) => all_actions(r.policies@),
        _ => Seq::empty(),
    }
}

/// The actions that a file requires after the change and not before.
pub open spec fn new_actions(a: FileAnalysis) -> Set<Seq<char>> {
    result_actions(a.head).to_set().difference(result_actions(a.base).to_set())
}

/// The actions that a file requires before the change and not after.
pub open spec fn gone_actions(a: FileAnalysis) -> Set<Seq<char>> {
    result_actions(a.base).to_set().difference(result_actions(a.head).to_set())
}

/// Whether the change leaves the permissions of a file as they are.
pub open spec fn is_unchanged(a: FileAnalysis) -> bool {
    new_actions(a).is_empty() && gone_actions(a).is_empty()
}

/// The reasons that are given for actions.
pub open spec fn fas_reasons(v: Version) -> Map<Seq<char>, Seq<char>> {
    Map::new(
        |k: Seq<char>| v matches Version::Analysed(r) && is_fas_action(explained(r), k),
        |k: Seq<char>| fas_text(),
    )
}

/// Whether `groups` are the new actions by the calls that require them.
pub open spec fn are_groups(
    groups: Option<Seq<ActionGroupView>>,
    v: Version,
    new: Seq<Seq<char>>,
) -> bool {
    match v {
        Version::Analysed(r) => match groups {
            Some(gs) => is_groupable(r.policies@, new) && groups_are(gs, r.policies@, new),
            None => !is_groupable(r.policies@, new),
        },
        _ => groups is None,
    }
}

/// `d` lists the set in alphabetical order, each once.
pub open spec fn lists(d: Seq<Seq<char>>, set: Set<Seq<char>>) -> bool {
    strictly_sorted(d) && d.to_set() == set
}

/// Whether `body` is the text of the comment on a file.
pub open spec fn is_body(body: Seq<char>, a: FileAnalysis) -> bool {
    exists|new: Seq<Seq<char>>, gone: Seq<Seq<char>>, groups: Option<Seq<ActionGroupView>>|
        lists(new, new_actions(a)) && lists(gone, gone_actions(a)) && are_groups(
            groups,
            a.head,
            new,
        ) && body == #[trigger] comment_body(new, gone, fas_reasons(a.head), groups)
}

/// Whether `line` is the line that the comment on a file belongs to.
pub open spec fn is_line(line: u32, a: FileAnalysis, added: Seq<(Seq<char>, int)>) -> bool {
    exists|lines: Seq<u32>| #[trigger]
        line_ints(lines) == lines_of_file(added, a.path@) && (if a.head is Missing {
            is_first_line(line, lines)
        } else {
            is_anchor(line, a.sdk_lines@, lines)
        })
}

/// Whether `c` is the comment on a file.
pub open spec fn is_comment_on(
    c: ReviewComment,
    a: FileAnalysis,
    added: Seq<(Seq<char>, int)>,
) -> bool {
    c.path@ == a.path@ && is_body(c.body@, a) && is_line(c.line, a, added)
}

/// Whether `cs` are the comments on the files: one for each file whose permissions change, in the
/// order of the files. Files for which policy generation failed get none.
pub open spec fn are_comments_on(
    cs: Seq<ReviewComment>,
    files: Seq<FileAnalysis>,
    added: Seq<(Seq<char>, int)>,
) -> bool
    decreases files.len(),
{
    if files.len() == 0 {
        cs.len() == 0
    } else if is_skipped(files.last()) || is_unchanged(files.last()) {
        are_comments_on(cs, files.drop_last(), added)
    } else {
        cs.len() > 0 && is_comment_on(cs.last(), files.last(), added) && are_comments_on(
            cs.drop_last(),
            files.drop_last(),
            added,
        )
    }
}

/// The texts of `a` that are not in `b`.
fn difference(a: &Vec<String>, b: &Vec<String>) -> (r: Vec<String>)
    requires
        strictly_sorted(texts(a@)),
    ensures
        strictly_sorted(texts(r@)),
        texts(r@).to_set() == texts(a@).to_set().difference(texts(b@).to_set()),
{
    let mut out: Vec<String> = Vec::new();
    let ghost s = texts(a@);
    let ghost t = texts(b@);
    let mut i: usize = 0;
    assert(texts(out@) =~= Seq::<Seq<char>>::empty());
    while i < a.len()
        invariant
            i <= a@.len(),
            s == texts(a@),
            t == texts(b@),
            strictly_sorted(texts(out@)),
            forall|x: Seq<char>| #[trigger]
                texts(out@).to_set().contains(x) == (!t.contains(x) && exists|j: int|
                    0 <= j < i && #[trigger] s[j] == x),
        decreases a@.len() - i,
    {
        assert(s[i as int] == a@[i as int]@);
        let ghost before = texts(out@).to_set();
        let there = contains_text(b, a[i].as_str());
        if !there {
            insert_text(&mut out, a[i].clone());
        }
        proof {
            let now = texts(out@).to_set();
            assert forall|x: Seq<char>| #[trigger] now.contains(x) == (!t.contains(x) && exists|
                j: int,
            | 0 <= j < i + 1 && #[trigger] s[j] == x) by {
                assert(before.contains(x) == (!t.contains(x) && exists|j: int|
                    0 <= j < i && #[trigger] s[j] == x));
                if x == s[i as int] {
                    assert(s[i as int] == x);
                }
            }
        }
        i = i + 1;
    }
    proof {
        let now = texts(out@).to_set();
        assert forall|x: Seq<char>| now.contains(x) == s.to_set().difference(t.to_set()).contains(
            x,
        ) by {
            if s.contains(x) {
                let j = choose|j: int| 0 <= j < s.len() && s[j] == x;
                assert(s[j] == x);
            }
        }
        assert(now =~= s.to_set().difference(t.to_set()));
    }
    out
}

fn actions_or_none(v: &Version) -> (r: Vec<String>)
    ensures
        sorted_set_of(texts(r@), result_actions(*v)),
{
    match v {
        Version::Analysed(result) => extract_actions(result),
        _ => {
            let none: Vec<String> = Vec::new();
            assert(texts(none@) =~= Seq::<Seq<char>>::empty());
            none
        },
    }
}

proof fn lemma_empty_list(d: Seq<Seq<char>>, set: Set<Seq<char>>)
    requires
        lists(d, set),
    ensures
        (d.len() == 0) == set.is_empty(),
{
    if d.len() > 0 {
        assert(d.to_set().contains(d[0]));
    } else {
        assert forall|x: Seq<char>| !set.contains(x) by {
            assert(!d.contains(x));
        }
        assert(set =~= Set::empty());
    }
}

/// The comment on a file, if the change adds or removes permissions and policy generation did not
/// fail.
pub fn review_file(a: &FileAnalysis, added: &AddedLines) -> (r: Option<ReviewComment>)
    ensures
        match r {
            Some(c) => !is_skipped(*a) && !is_unchanged(*a) && is_comment_on(c, *a, added@),
            None => is_skipped(*a) || is_unchanged(*a),
        },
{
    if matches!(a.base, Version::Failed) || matches!(a.head, Version::Failed) {
        return None;
    }
    let head_actions = actions_or_none(&a.head);
    let base_actions = actions_or_none(&a.base);
    let new = difference(&head_actions, &base_actions);
    let gone = difference(&base_actions, &head_actions);
    let ghost n = texts(new@);
    let ghost g = texts(gone@);
    proof {
        assert(lists(n, new_actions(*a)));
        assert(lists(g, gone_actions(*a)));
        lemma_empty_list(n, new_actions(*a));
        lemma_empty_list(g, gone_actions(*a));
        assert(n.len() == new@.len() && g.len() == gone@.len());
    }
    if new.len() == 0 && gone.len() == 0 {
        return None;
    }
    let explanations = match &a.head {
        Version::Analysed(r) => extract_explanations(r),
        _ => TextMap::new(),
    };
    proof {
        assert(reasons_of(explanations@) =~= fas_reasons(a.head));
    }
    let groups = match &a.head {
        Version::Analysed(r) => extract_individual_action_groups(r, &new),
        _ => None,
    };
    let body = format_comment_body(&new, &gone, &explanations, &groups);
    let lines = added.of_file(a.path.as_str());
    let line: u32 = if matches!(a.head, Version::Missing) {
        first_added_line(&lines)
    } else {
        compute_anchor_line(&a.sdk_lines, &lines)
    };
    proof {
        assert(are_groups(opt_groups(groups), a.head, n));
        assert(body@ == comment_body(n, g, fas_reasons(a.head), opt_groups(groups)));
        assert(is_body(body@, *a));
        assert(line_ints(lines@) == lines_of_file(added@, a.path@));
        assert(is_line(line, *a, added@));
    }
    Some(ReviewComment { path: a.path.clone(), line, body })
}

/// The comments on the files of a change: one for each file whose permissions change, in the order
/// of the files. Files for which policy generation failed get none.
pub fn generate_review(files: &Vec<FileAnalysis>, added: &AddedLines) -> (r: Vec<ReviewComment>)
    ensures
        are_comments_on(r@, files@, added@),
{
    let mut out: Vec<ReviewComment> = Vec::new();
    let ghost fs = files@;
    let mut i: usize = 0;
    assert(fs.subrange(0, 0).len() == 0);
    while i < files.len()
        invariant
            i <= files@.len(),
            fs == files@,
            are_comments_on(out@, fs.subrange(0, i as int), added@),
        decreases files@.len() - i,
    {
        let ghost u = fs.subrange(0, i + 1);
        let ghost before = out@;
        assert(u.drop_last() =~= fs.subrange(0, i as int));
        assert(u.last() == fs[i as int]);
        match review_file(&files[i], added) {
            Some(c) => {
                out.push(c);
                assert(out@.drop_last() =~= before);
                assert(out@.last() == c);
            },
            None => {},
        }
        i = i + 1;
    }
    assert(fs.subrange(0, fs.len() as int) =~= fs);
    out
}

/// No action is both new and gone.
pub proof fn no_action_is_new_and_gone(a: FileAnalysis, x: Seq<char>)
    ensures
        !(new_actions(a).contains(x) && gone_actions(a).contains(x)),
{
}

/// A file that requires the same actions before and after the change gets no comment.
pub proof fn same_actions_need_no_comment(a: FileAnalysis)
    requires
        result_actions(a.base).to_set() == result_actions(a.head).to_set(),
    ensures
        is_unchanged(a),
{
    assert(new_actions(a) =~= Set::empty());
    assert(gone_actions(a) =~= Set::empty());
}

/// A file for which policy generation failed adds no comment.
pub proof fn failed_files_are_skipped(
    cs: Seq<ReviewComment>,
    files: Seq<FileAnalysis>,
    a: FileAnalysis,
    added: Seq<(Seq<char>, int)>,
)
    requires
        is_skipped(a),
    ensures
        are_comments_on(cs, files.push(a), added) == are_comments_on(cs, files, added),
{
    assert(files.push(a).drop_last() =~= files);
}

} // verus!
