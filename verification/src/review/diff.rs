//! Which lines a unified diff adds.

use vstd::prelude::*;

use crate::text::{
    after_prefix, chars_of, find_char, find_from, find_text, find_text_from, has_prefix, lines,
    lines_of, parse_u32, parsed_unsigned, same, starts_with, strip_prefix, text_between, texts,
    trim, trimmed,
};

verus! {

/// The number at the start of a text that a comma or a space ends.
pub open spec fn leading_part(s: Seq<char>) -> Seq<char> {
    let comma = find_from(s, ',', 0);
    let space = find_from(s, ' ', 0);
    s.subrange(
        0,
        if comma < space {
            comma
        } else {
            space
        },
    )
}

/// The first line of the new file that a hunk header speaks of:
/// `@@ -<old start>[,<old count>] +<new start>[,<new count>] @@`.
pub open spec fn hunk_start(header: Seq<char>) -> Option<int> {
    match after_prefix(header, "@@ "@) {
        Some(rest) => match find_text_from(rest, " +"@, 0) {
            Some(i) => parsed_unsigned(
                leading_part(rest.subrange(i + 2, rest.len() as int)),
                u32::MAX as int,
            ),
            None => None,
        },
        None => None,
    }
}

/// The file that a line `+++ b/<path>` names.
pub open spec fn marked_file(line: Seq<char>) -> Seq<char> {
    let path = trimmed(line.subrange(4, line.len() as int));
    match after_prefix(path, "b/"@) {
        Some(p) => p,
        None => path,
    }
}

/// The lines of a diff that say nothing about the lines of a file.
pub open spec fn is_preamble(line: Seq<char>) -> bool {
    ||| has_prefix(line, "--- "@)
    ||| has_prefix(line, "diff "@)
    ||| has_prefix(line, "index "@)
    ||| has_prefix(line, "new file"@)
    ||| has_prefix(line, "deleted file"@)
    ||| has_prefix(line, "old mode"@)
    ||| has_prefix(line, "new mode"@)
}

/// Whether a line of a hunk counts as added: it begins with `+`, but not with `+++`.
pub open spec fn is_added(line: Seq<char>) -> bool {
    has_prefix(line, "+"@) && !has_prefix(line, "+++"@)
}

/// How far the reading of a diff has come: the current file, the number of the next line of its
/// new version, and the added lines so far.
#[verifier::ext_equal]
pub struct DiffState {
    pub file: Option<Seq<char>>,
    pub next: int,
    pub added: Seq<(Seq<char>, int)>,
}

/// What one line of a diff changes.
pub open spec fn after_line(st: DiffState, line: Seq<char>) -> DiffState {
    if has_prefix(line, "+++ "@) {
        DiffState { file: Some(marked_file(line)), ..st }
    } else if is_preamble(line) {
        st
    } else if has_prefix(line, "@@ "@) {
        match hunk_start(line) {
            Some(n) => DiffState { next: n, ..st },
            None => st,
        }
    } else {
        match st.file {
            None => st,
            Some(file) => if is_added(line) {
                DiffState { next: st.next + 1, added: st.added.push((file, st.next)), ..st }
            } else if has_prefix(line, "-"@) {
                st
            } else {
                DiffState { next: st.next + 1, ..st }
            },
        }
    }
}

/// The state behind the lines of a diff.
pub open spec fn after_lines(ls: Seq<Seq<char>>) -> DiffState
    decreases ls.len(),
{
    if ls.len() == 0 {
        DiffState { file: None, next: 0, added: Seq::empty() }
    } else {
        after_line(after_lines(ls.drop_last()), ls.last())
    }
}

/// The lines that a diff adds, each with its file, in the order of the diff.
pub open spec fn added_by(diff: Seq<char>) -> Seq<(Seq<char>, int)> {
    after_lines(lines_of(diff)).added
}

/// No line of the new files has a number that is too large.
pub open spec fn line_numbers_fit(diff: Seq<char>) -> bool {
    forall|n: int|
        0 <= n <= lines_of(diff).len() ==> (#[trigger] after_lines(
            lines_of(diff).subrange(0, n),
        )).next <= u32::MAX
}

/// A line that a diff adds.
#[derive(Debug, PartialEq, Eq)]
pub struct AddedLine {
    pub file: String,
    pub line: u32,
}

impl View for AddedLine {
    type V = (Seq<char>, int);

    open spec fn view(&self) -> (Seq<char>, int) {
        (self.file@, self.line as int)
    }
}

/// The lines that a diff adds.
#[derive(Debug, PartialEq, Eq)]
pub struct AddedLines {
    pub lines: Vec<AddedLine>,
}

impl View for AddedLines {
    type V = Seq<(Seq<char>, int)>;

    open spec fn view(&self) -> Seq<(Seq<char>, int)> {
        added_views(self.lines@)
    }
}

pub open spec fn added_views(v: Seq<AddedLine>) -> Seq<(Seq<char>, int)> {
    v.map_values(|a: AddedLine| a@)
}

/// The added lines of one file.
pub open spec fn lines_of_file(added: Seq<(Seq<char>, int)>, file: Seq<char>) -> Seq<int>
    decreases added.len(),
{
    if added.len() == 0 {
        Seq::empty()
    } else if added.last().0 == file {
        lines_of_file(added.drop_last(), file).push(added.last().1)
    } else {
        lines_of_file(added.drop_last(), file)
    }
}

pub open spec fn line_ints(v: Seq<u32>) -> Seq<int> {
    v.map_values(|x: u32| x as int)
}

impl AddedLines {
    /// The added lines of one file, if there are any.
    pub fn get(&self, file: &str) -> (r: Option<Vec<u32>>)
        ensures
            match r {
                Some(v) => v@.len() > 0 && line_ints(v@) == lines_of_file(self@, file@),
                None => lines_of_file(self@, file@).len() == 0,
            },
    {
        let v = self.of_file(file);
        assert(line_ints(v@).len() == v@.len());
        if v.len() == 0 {
            None
        } else {
            Some(v)
        }
    }

    /// The added lines of one file.
    pub fn of_file(&self, file: &str) -> (r: Vec<u32>)
        ensures
            line_ints(r@) == lines_of_file(self@, file@),
    {
        let mut out: Vec<u32> = Vec::new();
        let ghost s = self@;
        let mut i: usize = 0;
        assert(line_ints(out@) =~= Seq::<int>::empty());
        assert(s.subrange(0, 0).len() == 0);
        while i < self.lines.len()
            invariant
                i <= self.lines@.len(),
                s == self@,
                line_ints(out@) == lines_of_file(s.subrange(0, i as int), file@),
            decreases self.lines@.len() - i,
        {
            let ghost u = s.subrange(0, i + 1);
            let ghost before = line_ints(out@);
            assert(u.drop_last() =~= s.subrange(0, i as int));
            assert(u.last() == self.lines@[i as int]@);
            if same(self.lines[i].file.as_str(), file) {
                out.push(self.lines[i].line);
                assert(line_ints(out@) =~= before.push(self.lines@[i as int].line as int));
            }
            i = i + 1;
        }
        assert(s.subrange(0, s.len() as int) =~= s);
        out
    }
}

/// The first line of the new file that a hunk header speaks of.
pub fn parse_hunk_new_start(header: &str) -> (r: Option<u32>)
    ensures
        match r {
            Some(n) => hunk_start(header@) == Some(n as int),
            None => hunk_start(header@) is None,
        },
{
    let rest = match strip_prefix(header, "@@ ") {
        Some(rest) => rest,
        None => {
            return None;
        },
    };
    let v = chars_of(rest.as_str());
    let plus = chars_of(" +");
    proof {
        reveal_strlit(" +");
        assert(" +"@.len() == 2);
    }
    match find_text(&v, &plus, 0) {
        Some(i) => {
            let part = text_between(&v, i + 2, v.len());
            let w = chars_of(part.as_str());
            let comma: usize = find_char(&w, ',', 0);
            let space: usize = find_char(&w, ' ', 0);
            let end: usize = if comma < space {
                comma
            } else {
                space
            };
            let number = text_between(&w, 0, end);
            parse_u32(number.as_str())
        },
        None => None,
    }
}

fn is_preamble_line(line: &str) -> (r: bool)
    ensures
        r == is_preamble(line@),
{
    starts_with(line, "--- ") || starts_with(line, "diff ") || starts_with(line, "index ")
        || starts_with(line, "new file") || starts_with(line, "deleted file") || starts_with(
        line,
        "old mode",
    ) || starts_with(line, "new mode")
}

fn marked_path(line: &str) -> (r: String)
    requires
        has_prefix(line@, "+++ "@),
    ensures
        r@ == marked_file(line@),
{
    let v = chars_of(line);
    proof {
        reveal_strlit("+++ ");
        assert("+++ "@.len() == 4);
    }
    let path = text_between(&v, 4, v.len());
    let path = trim(path.as_str());
    match strip_prefix(path.as_str(), "b/") {
        Some(p) => p,
        None => path,
    }
}

proof fn lemma_subrange_step(s: Seq<Seq<char>>, i: int)
    requires
        0 <= i < s.len(),
    ensures
        after_lines(s.subrange(0, i + 1)) == after_line(after_lines(s.subrange(0, i)), s[i]),
{
    let u = s.subrange(0, i + 1);
    assert(u.drop_last() =~= s.subrange(0, i));
    assert(u.last() == s[i]);
}

/// The lines that a diff adds, or `None` if the number of a line is too large.
pub fn parse_added_lines_checked(diff: &str) -> (r: Option<AddedLines>)
    ensures
        match r {
            Some(a) => a@ == added_by(diff@),
            None => !line_numbers_fit(diff@),
        },
        line_numbers_fit(diff@) ==> r is Some,
{
    let ls = lines(diff);
    let ghost s = texts(ls@);
    let mut out: Vec<AddedLine> = Vec::new();
    let mut file: Option<String> = None;
    let mut next: u32 = 0;
    let mut i: usize = 0;
    let ghost mut st = after_lines(s.subrange(0, 0));
    assert(added_views(out@) =~= Seq::<(Seq<char>, int)>::empty());
    assert(s.subrange(0, 0).len() == 0);
    while i < ls.len()
        invariant
            i <= ls@.len(),
            s == texts(ls@),
            s == lines_of(diff@),
            st == after_lines(s.subrange(0, i as int)),
            crate::text::opt_text(file) == st.file,
            next == st.next,
            added_views(out@) == st.added,
        decreases ls@.len() - i,
    {
        let line = ls[i].as_str();
        let ghost before = st;
        let ghost listed = added_views(out@);
        proof {
            lemma_subrange_step(s, i as int);
            assert(s[i as int] == line@);
            st = after_lines(s.subrange(0, i + 1));
        }
        if starts_with(line, "+++ ") {
            file = Some(marked_path(line));
        } else if is_preamble_line(line) {
        } else if starts_with(line, "@@ ") {
            match parse_hunk_new_start(line) {
                Some(n) => {
                    next = n;
                },
                None => {},
            }
        } else {
            match &file {
                None => {},
                Some(f) => {
                    let plus = starts_with(line, "+") && !starts_with(line, "+++");
                    let minus = starts_with(line, "-");
                    if plus || !minus {
                        if next == u32::MAX {
                            assert(st.next > u32::MAX);
                            return None;
                        }
                        if plus {
                            let a = AddedLine { file: f.clone(), line: next };
                            out.push(a);
                            assert(added_views(out@) =~= listed.push(a@));
                        }
                        next = next + 1;
                    }
                },
            }
        }
        i = i + 1;
    }
    assert(s.subrange(0, s.len() as int) =~= s);
    Some(AddedLines { lines: out })
}

/// The lines that a diff adds.
pub fn parse_added_lines(diff: &str) -> (r: AddedLines)
    requires
        line_numbers_fit(diff@),
    ensures
        r@ == added_by(diff@),
{
    match parse_added_lines_checked(diff) {
        Some(a) => a,
        None => AddedLines { lines: Vec::new() },
    }
}

/// Removed lines, and lines before the first file, add nothing: they leave the added lines and
/// the count as they are.
pub proof fn removed_lines_do_not_count(st: DiffState, line: Seq<char>)
    requires
        !has_prefix(line, "+++ "@),
        !has_prefix(line, "@@ "@),
        has_prefix(line, "-"@) || st.file is None,
    ensures
        after_line(st, line) == st,
{
    reveal_strlit("+");
    reveal_strlit("-");
    lemma_prefix_first(line, "+"@);
    lemma_prefix_first(line, "-"@);
}

/// Every added line has the number that follows that of the line before it in the new file.
pub proof fn added_lines_count_up(st: DiffState, line: Seq<char>, file: Seq<char>)
    requires
        st.file == Some(file),
        is_added(line),
    ensures
        after_line(st, line).added == st.added.push((file, st.next)),
        after_line(st, line).next == st.next + 1,
{
    reveal_strlit("+");
    reveal_strlit("+++");
    reveal_strlit("+++ ");
    reveal_strlit("@@ ");
    reveal_strlit("--- ");
    reveal_strlit("diff ");
    reveal_strlit("index ");
    reveal_strlit("new file");
    reveal_strlit("deleted file");
    reveal_strlit("old mode");
    reveal_strlit("new mode");
    lemma_prefix_first(line, "+"@);
    if has_prefix(line, "+++ "@) {
        assert(line.subrange(0, 3) =~= line.subrange(0, 4).subrange(0, 3));
        assert("+++"@ =~= "+++ "@.subrange(0, 3));
    }
    lemma_prefix_first(line, "@@ "@);
    lemma_prefix_first(line, "--- "@);
    lemma_prefix_first(line, "diff "@);
    lemma_prefix_first(line, "index "@);
    lemma_prefix_first(line, "new file"@);
    lemma_prefix_first(line, "deleted file"@);
    lemma_prefix_first(line, "old mode"@);
    lemma_prefix_first(line, "new mode"@);
}

proof fn lemma_prefix_first(line: Seq<char>, p: Seq<char>)
    requires
        p.len() > 0,
    ensures
        has_prefix(line, p) ==> line[0] == p[0],
{
    if has_prefix(line, p) {
        assert(line.subrange(0, p.len() as int)[0] == line[0]);
    }
}

} // verus!
