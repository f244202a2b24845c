//! Text as sequences of characters.
//!
//! The string operations that the rest of the library is built on, each proved against a
//! specification over `Seq<char>`, the view of `str` and `String`.

use vstd::prelude::*;

verus! {

/// `String::push` of the standard library appends one character to the end of the string.
pub assume_specification[ String::push ](s: &mut String, c: char)
    ensures
        final(s)@ == old(s)@.push(c),
;

/// `==` of the standard library on `str` compares the two texts character for character.
pub assume_specification[ <str as PartialEq>::eq ](a: &str, b: &str) -> (r: bool)
    ensures
        r == (a@ == b@),
;

/// The views of a sequence of strings.
pub open spec fn texts(v: Seq<String>) -> Seq<Seq<char>> {
    v.map_values(|s: String| s@)
}

/// The view of an optional string.
pub open spec fn opt_text(o: Option<String>) -> Option<Seq<char>> {
    match o {
        Some(s) => Some(s@),
        None => None,
    }
}

pub open spec fn has_prefix(s: Seq<char>, p: Seq<char>) -> bool {
    p.len() <= s.len() && s.subrange(0, p.len() as int) == p
}

pub open spec fn has_suffix(s: Seq<char>, p: Seq<char>) -> bool {
    p.len() <= s.len() && s.subrange(s.len() - p.len(), s.len() as int) == p
}

/// What is left of `s` behind the prefix `p`.
pub open spec fn after_prefix(s: Seq<char>, p: Seq<char>) -> Option<Seq<char>> {
    if has_prefix(s, p) {
        Some(s.subrange(p.len() as int, s.len() as int))
    } else {
        None
    }
}

/// What is left of `s` before the suffix `p`.
pub open spec fn before_suffix(s: Seq<char>, p: Seq<char>) -> Option<Seq<char>> {
    if has_suffix(s, p) {
        Some(s.subrange(0, s.len() - p.len()))
    } else {
        None
    }
}

/// The first position at or after `from` that holds `c`; the length of `s` if there is none.
pub open spec fn find_from(s: Seq<char>, c: char, from: int) -> int
    decreases s.len() - from,
{
    if from >= s.len() {
        s.len() as int
    } else if s[from] == c {
        from
    } else {
        find_from(s, c, from + 1)
    }
}

/// The last position before `to` that holds `c`; -1 if there is none.
pub open spec fn rfind_before(s: Seq<char>, c: char, to: int) -> int
    decreases to,
{
    if to <= 0 {
        -1
    } else if s[to - 1] == c {
        to - 1
    } else {
        rfind_before(s, c, to - 1)
    }
}

/// Whether `p` stands in `s` at position `i`.
pub open spec fn occurs_at(s: Seq<char>, p: Seq<char>, i: int) -> bool {
    0 <= i && i + p.len() <= s.len() && s.subrange(i, i + p.len()) == p
}

/// The first position at or after `from` where `p` stands in `s`.
pub open spec fn find_text_from(s: Seq<char>, p: Seq<char>, from: int) -> Option<int>
    decreases s.len() + 1 - from,
{
    if from > s.len() {
        None
    } else if occurs_at(s, p, from) {
        Some(from)
    } else {
        find_text_from(s, p, from + 1)
    }
}

/// The pieces of `s` between the separators `c`: one more than there are separators.
pub open spec fn split_on(s: Seq<char>, c: char) -> Seq<Seq<char>>
    decreases s.len(),
{
    let i = find_from(s, c, 0);
    if 0 <= i < s.len() {
        seq![s.subrange(0, i)] + split_on(s.subrange(i + 1, s.len() as int), c)
    } else {
        seq![s]
    }
}

/// A line without the carriage return before its line feed.
pub open spec fn without_cr(s: Seq<char>) -> Seq<char> {
    if s.len() > 0 && s.last() == '\r' {
        s.drop_last()
    } else {
        s
    }
}

/// The lines of `s`, without their line endings (`\n` or `\r\n`); the last ending is optional.
pub open spec fn lines_of(s: Seq<char>) -> Seq<Seq<char>>
    decreases s.len(),
{
    let i = find_from(s, '\n', 0);
    if s.len() == 0 {
        Seq::empty()
    } else if 0 <= i < s.len() {
        seq![without_cr(s.subrange(0, i))] + lines_of(s.subrange(i + 1, s.len() as int))
    } else {
        seq![s]
    }
}

/// The texts `v` one behind the other, with `sep` between each two of them.
pub open spec fn joined(v: Seq<Seq<char>>, sep: Seq<char>) -> Seq<char>
    decreases v.len(),
{
    if v.len() == 0 {
        Seq::empty()
    } else if v.len() == 1 {
        v[0]
    } else {
        joined(v.drop_last(), sep) + sep + v.last()
    }
}

/// The characters with the Unicode property `White_Space`.
pub open spec fn is_space(c: char) -> bool {
    ||| 0x09 <= c as u32 <= 0x0d
    ||| c as u32 == 0x20
    ||| c as u32 == 0x85
    ||| c as u32 == 0xa0
    ||| c as u32 == 0x1680
    ||| 0x2000 <= c as u32 <= 0x200a
    ||| c as u32 == 0x2028
    ||| c as u32 == 0x2029
    ||| c as u32 == 0x202f
    ||| c as u32 == 0x205f
    ||| c as u32 == 0x3000
}

pub open spec fn trim_start(s: Seq<char>, drop: spec_fn(char) -> bool) -> Seq<char>
    decreases s.len(),
{
    if s.len() > 0 && drop(s[0]) {
        trim_start(s.subrange(1, s.len() as int), drop)
    } else {
        s
    }
}

pub open spec fn trim_end(s: Seq<char>, drop: spec_fn(char) -> bool) -> Seq<char>
    decreases s.len(),
{
    if s.len() > 0 && drop(s.last()) {
        trim_end(s.drop_last(), drop)
    } else {
        s
    }
}

/// `s` without the white space at its two ends.
pub open spec fn trimmed(s: Seq<char>) -> Seq<char> {
    trim_end(trim_start(s, |c: char| is_space(c)), |c: char| is_space(c))
}

pub open spec fn is_char(c: char) -> spec_fn(char) -> bool {
    |x: char| x == c
}

/// `s` without the characters `c` at its two ends.
pub open spec fn trimmed_of(s: Seq<char>, c: char) -> Seq<char> {
    trim_end(trim_start(s, is_char(c)), is_char(c))
}

/// `s` without the characters `c` at its start.
pub open spec fn trimmed_start_of(s: Seq<char>, c: char) -> Seq<char> {
    trim_start(s, is_char(c))
}

/// `s` without the characters `c` at its end.
pub open spec fn trimmed_end_of(s: Seq<char>, c: char) -> Seq<char> {
    trim_end(s, is_char(c))
}

/// `s` without any of the characters `c`.
pub open spec fn without(s: Seq<char>, c: char) -> Seq<char>
    decreases s.len(),
{
    if s.len() == 0 {
        s
    } else if s.last() == c {
        without(s.drop_last(), c)
    } else {
        without(s.drop_last(), c).push(s.last())
    }
}

pub open spec fn is_digit(c: char) -> bool {
    '0' <= c <= '9'
}

pub open spec fn digit_value(c: char) -> int {
    c as u32 - '0' as u32
}

/// The number that a sequence of decimal digits stands for.
pub open spec fn decimal_value(s: Seq<char>) -> int
    decreases s.len(),
{
    if s.len() == 0 {
        0
    } else {
        10 * decimal_value(s.drop_last()) + digit_value(s.last())
    }
}

pub open spec fn all_digits(s: Seq<char>) -> bool {
    forall|i: int| 0 <= i < s.len() ==> is_digit(#[trigger] s[i])
}

/// The digits of a number as the standard library reads it: one leading `+` may be there.
pub open spec fn unsigned_digits(s: Seq<char>) -> Seq<char> {
    if s.len() > 0 && s[0] == '+' {
        s.subrange(1, s.len() as int)
    } else {
        s
    }
}

/// The unsigned number written in `s`, if `s` is one and it is at most `max`.
pub open spec fn parsed_unsigned(s: Seq<char>, max: int) -> Option<int> {
    let d = unsigned_digits(s);
    if d.len() > 0 && all_digits(d) && decimal_value(d) <= max {
        Some(decimal_value(d))
    } else {
        None
    }
}

pub open spec fn digit_char(d: int) -> char {
    ('0' as u32 + d) as char
}

/// The decimal notation of a number.
pub open spec fn decimal(n: nat) -> Seq<char>
    decreases n,
{
    if n < 10 {
        seq![digit_char(n as int)]
    } else {
        decimal(n / 10).push(digit_char((n % 10) as int))
    }
}

/// Alphabetical order by code point, in which a proper prefix comes first.
pub open spec fn text_lt(a: Seq<char>, b: Seq<char>) -> bool
    decreases a.len(),
{
    if b.len() == 0 {
        false
    } else if a.len() == 0 {
        true
    } else if a[0] != b[0] {
        a[0] < b[0]
    } else {
        text_lt(a.subrange(1, a.len() as int), b.subrange(1, b.len() as int))
    }
}

/// Whether the two texts are equal.
pub fn same(a: &str, b: &str) -> (r: bool)
    ensures
        r == (a@ == b@),
{
    *a == *b
}

/// The characters of a text.
pub fn chars_of(s: &str) -> (r: Vec<char>)
    ensures
        r@ == s@,
{
    let mut out: Vec<char> = Vec::new();
    for c in iter: s.chars()
        invariant
            iter.seq() == s@,
            out@ == s@.subrange(0, iter.index() as int),
    {
        out.push(c);
    }
    out
}

/// The text of the characters `v[from..to]`.
pub fn text_between(v: &Vec<char>, from: usize, to: usize) -> (r: String)
    requires
        from <= to <= v@.len(),
    ensures
        r@ == v@.subrange(from as int, to as int),
{
    let mut out = String::new();
    let mut i: usize = from;
    while i < to
        invariant
            from <= i <= to <= v@.len(),
            out@ == v@.subrange(from as int, i as int),
        decreases to - i,
    {
        out.push(v[i]);
        i = i + 1;
    }
    out
}

/// The text of the characters `v`.
pub fn text_of(v: &Vec<char>) -> (r: String)
    ensures
        r@ == v@,
{
    let r = text_between(v, 0, v.len());
    assert(v@.subrange(0, v@.len() as int) == v@);
    r
}

/// A copy of the text `s`.
pub fn owned(s: &str) -> (r: String)
    ensures
        r@ == s@,
{
    s.to_string()
}

/// `a` with `b` behind it.
pub fn concat(a: &str, b: &str) -> (r: String)
    ensures
        r@ == a@ + b@,
{
    let mut r = a.to_string();
    r.append(b);
    r
}

fn matches_at(v: &Vec<char>, p: &Vec<char>, at: usize) -> (r: bool)
    requires
        at <= v@.len(),
    ensures
        r == occurs_at(v@, p@, at as int),
{
    if p.len() > v.len() - at {
        return false;
    }
    let mut i: usize = 0;
    while i < p.len()
        invariant
            i <= p@.len(),
            at + p.len() <= v.len(),
            forall|j: int| 0 <= j < i ==> v@[at + j] == p@[j],
        decreases p@.len() - i,
    {
        if v[at + i] != p[i] {
            assert(v@.subrange(at as int, at + p@.len())[i as int] == v@[at + i]);
            return false;
        }
        i = i + 1;
    }
    assert(v@.subrange(at as int, at + p@.len()) == p@);
    true
}

pub fn starts_with(s: &str, p: &str) -> (r: bool)
    ensures
        r == has_prefix(s@, p@),
{
    let v = chars_of(s);
    let w = chars_of(p);
    matches_at(&v, &w, 0)
}

pub fn ends_with(s: &str, p: &str) -> (r: bool)
    ensures
        r == has_suffix(s@, p@),
{
    let v = chars_of(s);
    let w = chars_of(p);
    if w.len() > v.len() {
        return false;
    }
    assert(v@.len() - w@.len() + w@.len() == v@.len());
    matches_at(&v, &w, v.len() - w.len())
}

pub fn strip_prefix(s: &str, p: &str) -> (r: Option<String>)
    ensures
        opt_text(r) == after_prefix(s@, p@),
{
    let v = chars_of(s);
    let w = chars_of(p);
    if matches_at(&v, &w, 0) {
        Some(text_between(&v, w.len(), v.len()))
    } else {
        None
    }
}

pub fn strip_suffix(s: &str, p: &str) -> (r: Option<String>)
    ensures
        opt_text(r) == before_suffix(s@, p@),
{
    if ends_with(s, p) {
        let v = chars_of(s);
        let w = chars_of(p);
        Some(text_between(&v, 0, v.len() - w.len()))
    } else {
        None
    }
}

pub proof fn lemma_find_from(s: Seq<char>, c: char, from: int)
    requires
        0 <= from <= s.len(),
    ensures
        from <= find_from(s, c, from) <= s.len(),
        find_from(s, c, from) < s.len() ==> s[find_from(s, c, from)] == c,
        forall|j: int| from <= j < find_from(s, c, from) ==> s[j] != c,
    decreases s.len() - from,
{
    if from < s.len() && s[from] != c {
        lemma_find_from(s, c, from + 1);
    }
}

/// A position with `c` before which there is no `c` is the first one.
pub proof fn lemma_find_is(s: Seq<char>, c: char, from: int, i: int)
    requires
        0 <= from <= i <= s.len(),
        i < s.len() ==> s[i] == c,
        forall|j: int| from <= j < i ==> s[j] != c,
    ensures
        find_from(s, c, from) == i,
    decreases s.len() - from,
{
    if from < i {
        lemma_find_is(s, c, from + 1, i);
    }
}

pub proof fn lemma_rfind_before(s: Seq<char>, c: char, to: int)
    requires
        0 <= to <= s.len(),
    ensures
        -1 <= rfind_before(s, c, to) < to || to == 0,
        rfind_before(s, c, to) >= 0 ==> rfind_before(s, c, to) < to && s[rfind_before(s, c, to)] == c,
        forall|j: int| rfind_before(s, c, to) < j < to ==> s[j] != c,
    decreases to,
{
    if to > 0 && s[to - 1] != c {
        lemma_rfind_before(s, c, to - 1);
    }
}

pub fn find_char(v: &Vec<char>, c: char, from: usize) -> (r: usize)
    requires
        from <= v@.len(),
    ensures
        r == find_from(v@, c, from as int),
        from <= r <= v.len(),
{
    let mut i: usize = from;
    while i < v.len() && v[i] != c
        invariant
            from <= i <= v@.len(),
            find_from(v@, c, from as int) == find_from(v@, c, i as int),
        decreases v@.len() - i,
    {
        i = i + 1;
    }
    i
}

/// The position of the last `c`, if there is one.
pub fn rfind_char(v: &Vec<char>, c: char) -> (r: Option<usize>)
    ensures
        match r {
            Some(i) => i == rfind_before(v@, c, v@.len() as int) && i < v.len(),
            None => rfind_before(v@, c, v@.len() as int) == -1,
        },
{
    let mut i: usize = v.len();
    while i > 0
        invariant
            i <= v@.len(),
            rfind_before(v@, c, v@.len() as int) == rfind_before(v@, c, i as int),
        decreases i,
    {
        if v[i - 1] == c {
            return Some(i - 1);
        }
        i = i - 1;
    }
    None
}

/// The first position at or after `from` where `p` stands, if there is one.
pub fn find_text(v: &Vec<char>, p: &Vec<char>, from: usize) -> (r: Option<usize>)
    requires
        from <= v@.len(),
    ensures
        match r {
            Some(i) => find_text_from(v@, p@, from as int) == Some(i as int) && from <= i && i
                + p.len() <= v.len(),
            None => find_text_from(v@, p@, from as int) is None,
        },
{
    let mut i: usize = from;
    loop
        invariant
            from <= i <= v@.len(),
            find_text_from(v@, p@, from as int) == find_text_from(v@, p@, i as int),
        decreases v@.len() - i,
    {
        if matches_at(v, p, i) {
            return Some(i);
        }
        if i == v.len() {
            assert(find_text_from(v@, p@, i + 1) is None);
            return None;
        }
        i = i + 1;
    }
}

/// The pieces of `s` between the separators `c`.
pub fn split(s: &str, c: char) -> (r: Vec<String>)
    ensures
        texts(r@) == split_on(s@, c),
        r@.len() > 0,
{
    let v = chars_of(s);
    let mut out: Vec<String> = Vec::new();
    let mut start: usize = 0;
    proof {
        assert(v@.subrange(0, v@.len() as int) == v@);
        assert(texts(out@) + split_on(v@, c) == split_on(v@, c));
    }
    loop
        invariant
            start <= v@.len(),
            v@ == s@,
            texts(out@) + split_on(v@.subrange(start as int, v@.len() as int), c) == split_on(s@, c),
        decreases v@.len() - start,
    {
        let i: usize = find_char(&v, c, start);
        let piece = text_between(&v, start, i);
        let ghost rest = v@.subrange(start as int, v@.len() as int);
        let ghost before = texts(out@);
        proof {
            lemma_find_from(v@, c, start as int);
            assert forall|j: int| 0 <= j < i - start implies rest[j] != c by {
                assert(rest[j] == v@[start + j]);
            }
            if i < v@.len() {
                assert(rest[i - start] == v@[i as int]);
            }
            lemma_find_is(rest, c, 0, i - start);
            assert(rest.subrange(0, i - start) == v@.subrange(start as int, i as int));
        }
        out.push(piece);
        proof {
            assert(texts(out@) == before.push(piece@));
        }
        if i == v.len() {
            proof {
                assert(rest == piece@);
                assert(split_on(rest, c) == seq![rest]);
                assert(texts(out@) == before + seq![rest]);
            }
            return out;
        }
        proof {
            let tail = v@.subrange(i + 1, v@.len() as int);
            assert(rest.subrange(i - start + 1, rest.len() as int) == tail);
            assert(split_on(rest, c) == seq![piece@] + split_on(tail, c));
            assert(texts(out@) + split_on(tail, c) == before + split_on(rest, c));
        }
        start = i + 1;
    }
}

/// The lines of `s`, without their line endings.
pub fn lines(s: &str) -> (r: Vec<String>)
    ensures
        texts(r@) == lines_of(s@),
{
    let v = chars_of(s);
    let mut out: Vec<String> = Vec::new();
    let mut start: usize = 0;
    proof {
        assert(v@.subrange(0, v@.len() as int) == v@);
        assert(texts(out@) + lines_of(v@) == lines_of(v@));
    }
    while start < v.len()
        invariant
            start <= v@.len(),
            v@ == s@,
            texts(out@) + lines_of(v@.subrange(start as int, v@.len() as int)) == lines_of(s@),
        decreases v@.len() - start,
    {
        let i: usize = find_char(&v, '\n', start);
        let ghost rest = v@.subrange(start as int, v@.len() as int);
        let ghost before = texts(out@);
        proof {
            lemma_find_from(v@, '\n', start as int);
            assert forall|j: int| 0 <= j < i - start implies rest[j] != '\n' by {
                assert(rest[j] == v@[start + j]);
            }
            if i < v@.len() {
                assert(rest[i - start] == v@[i as int]);
            }
            lemma_find_is(rest, '\n', 0, i - start);
            assert(rest.subrange(0, i - start) == v@.subrange(start as int, i as int));
        }
        let ghost whole = rest.subrange(0, i - start);
        if i == v.len() {
            let line = text_between(&v, start, i);
            out.push(line);
            proof {
                assert(rest == line@);
                assert(texts(out@) == before + seq![rest]);
                assert(lines_of(rest) == seq![rest]);
                let none = v@.subrange(i as int, v@.len() as int);
                assert(none.len() == 0);
                assert(lines_of(none) == Seq::<Seq<char>>::empty());
                assert(texts(out@) + lines_of(none) == texts(out@));
            }
            start = i;
        } else {
            let mut end: usize = i;
            if i > start && v[i - 1] == '\r' {
                end = i - 1;
            }
            let line = text_between(&v, start, end);
            out.push(line);
            proof {
                assert(line@ == without_cr(whole)) by {
                    if i > start {
                        assert(whole.last() == v@[i - 1]);
                        assert(whole.drop_last() == v@.subrange(start as int, i - 1));
                    }
                }
                let tail = v@.subrange(i + 1, v@.len() as int);
                assert(rest.subrange(i - start + 1, rest.len() as int) == tail);
                assert(lines_of(rest) == seq![line@] + lines_of(tail));
                assert(texts(out@) == before.push(line@));
                assert(texts(out@) + lines_of(tail) == before + lines_of(rest));
            }
            start = i + 1;
        }
    }
    proof {
        let none = v@.subrange(start as int, v@.len() as int);
        assert(none.len() == 0);
        assert(lines_of(none) == Seq::<Seq<char>>::empty());
        assert(texts(out@) + lines_of(none) == texts(out@));
    }
    out
}

/// The texts of `v` one behind the other, with `sep` between each two of them.
pub fn join(v: &Vec<String>, sep: &str) -> (r: String)
    ensures
        r@ == joined(texts(v@), sep@),
{
    let mut out = String::new();
    let mut i: usize = 0;
    proof {
        assert(texts(v@).subrange(0, 0).len() == 0);
    }
    while i < v.len()
        invariant
            i <= v@.len(),
            out@ == joined(texts(v@).subrange(0, i as int), sep@),
        decreases v@.len() - i,
    {
        let ghost part = texts(v@).subrange(0, i + 1);
        proof {
            assert(part.drop_last() == texts(v@).subrange(0, i as int));
            assert(part.last() == v@[i as int]@);
        }
        if i > 0 {
            out.append(sep);
        }
        out.append(v[i].as_str());
        proof {
            if i == 0 {
                assert(out@ == v@[0]@);
                assert(part[0] == v@[0]@);
            }
        }
        i = i + 1;
    }
    proof {
        assert(texts(v@).subrange(0, v@.len() as int) == texts(v@));
    }
    out
}

pub fn space(c: char) -> (r: bool)
    ensures
        r == is_space(c),
{
    let n: u32 = c as u32;
    (0x09 <= n && n <= 0x0d) || n == 0x20 || n == 0x85 || n == 0xa0 || n == 0x1680 || (0x2000 <= n
        && n <= 0x200a) || n == 0x2028 || n == 0x2029 || n == 0x202f || n == 0x205f || n == 0x3000
}

proof fn lemma_trim_start_step(s: Seq<char>, i: int, drop: spec_fn(char) -> bool)
    requires
        0 <= i < s.len(),
        drop(s[i]),
    ensures
        trim_start(s.subrange(i, s.len() as int), drop) == trim_start(
            s.subrange(i + 1, s.len() as int),
            drop,
        ),
{
    let t = s.subrange(i, s.len() as int);
    assert(t[0] == s[i]);
    assert(t.subrange(1, t.len() as int) == s.subrange(i + 1, s.len() as int));
}

proof fn lemma_trim_end_step(s: Seq<char>, from: int, to: int, drop: spec_fn(char) -> bool)
    requires
        0 <= from < to <= s.len(),
        drop(s[to - 1]),
    ensures
        trim_end(s.subrange(from, to), drop) == trim_end(s.subrange(from, to - 1), drop),
{
    let t = s.subrange(from, to);
    assert(t.last() == s[to - 1]);
    assert(t.drop_last() == s.subrange(from, to - 1));
}

/// `s` without the white space at its two ends.
pub fn trim(s: &str) -> (r: String)
    ensures
        r@ == trimmed(s@),
{
    let v = chars_of(s);
    let ghost drop = |c: char| is_space(c);
    let mut from: usize = 0;
    assert(v@.subrange(0, v@.len() as int) == v@);
    while from < v.len() && space(v[from])
        invariant
            drop == (|c: char| is_space(c)),
            from <= v@.len(),
            trim_start(v@.subrange(from as int, v@.len() as int), drop) == trim_start(v@, drop),
        decreases v@.len() - from,
    {
        proof {
            lemma_trim_start_step(v@, from as int, drop);
        }
        from = from + 1;
    }
    let ghost t = v@.subrange(from as int, v@.len() as int);
    assert(trim_start(t, drop) == t) by {
        if t.len() > 0 {
            assert(t[0] == v@[from as int]);
        }
    }
    let mut to: usize = v.len();
    while to > from && space(v[to - 1])
        invariant
            drop == (|c: char| is_space(c)),
            from <= to <= v@.len(),
            trim_end(v@.subrange(from as int, to as int), drop) == trim_end(t, drop),
        decreases to,
    {
        proof {
            lemma_trim_end_step(v@, from as int, to as int, drop);
        }
        to = to - 1;
    }
    let ghost u = v@.subrange(from as int, to as int);
    assert(trim_end(u, drop) == u) by {
        if u.len() > 0 {
            assert(u.last() == v@[to - 1]);
        }
    }
    text_between(&v, from, to)
}

/// `s` without the characters `c` at its start.
pub fn trim_start_char(s: &str, c: char) -> (r: String)
    ensures
        r@ == trimmed_start_of(s@, c),
{
    let v = chars_of(s);
    let ghost drop = is_char(c);
    let mut from: usize = 0;
    assert(v@.subrange(0, v@.len() as int) == v@);
    while from < v.len() && v[from] == c
        invariant
            drop == is_char(c),
            from <= v@.len(),
            trim_start(v@.subrange(from as int, v@.len() as int), drop) == trim_start(v@, drop),
        decreases v@.len() - from,
    {
        proof {
            lemma_trim_start_step(v@, from as int, drop);
        }
        from = from + 1;
    }
    let ghost t = v@.subrange(from as int, v@.len() as int);
    assert(trim_start(t, drop) == t) by {
        if t.len() > 0 {
            assert(t[0] == v@[from as int]);
        }
    }
    text_between(&v, from, v.len())
}

/// `s` without the characters `c` at its two ends.
pub fn trim_char(s: &str, c: char) -> (r: String)
    ensures
        r@ == trimmed_of(s@, c),
{
    trim_end_char(trim_start_char(s, c).as_str(), c)
}

/// `s` without the characters `c` at its end.
pub fn trim_end_char(s: &str, c: char) -> (r: String)
    ensures
        r@ == trimmed_end_of(s@, c),
{
    let v = chars_of(s);
    let ghost drop = is_char(c);
    let mut to: usize = v.len();
    assert(v@.subrange(0, v@.len() as int) == v@);
    while to > 0 && v[to - 1] == c
        invariant
            drop == is_char(c),
            to <= v@.len(),
            trim_end(v@.subrange(0, to as int), drop) == trim_end(v@, drop),
        decreases to,
    {
        proof {
            lemma_trim_end_step(v@, 0, to as int, drop);
        }
        to = to - 1;
    }
    let ghost u = v@.subrange(0, to as int);
    assert(trim_end(u, drop) == u) by {
        if u.len() > 0 {
            assert(u.last() == v@[to - 1]);
        }
    }
    text_between(&v, 0, to)
}

/// `s` without any of the characters `c`.
pub fn remove_char(s: &str, c: char) -> (r: String)
    ensures
        r@ == without(s@, c),
{
    let v = chars_of(s);
    let mut out = String::new();
    let mut i: usize = 0;
    assert(v@.subrange(0, 0) == Seq::<char>::empty());
    while i < v.len()
        invariant
            i <= v@.len(),
            out@ == without(v@.subrange(0, i as int), c),
        decreases v@.len() - i,
    {
        let ghost t = v@.subrange(0, i + 1);
        assert(t.drop_last() == v@.subrange(0, i as int));
        assert(t.last() == v@[i as int]);
        if v[i] != c {
            out.push(v[i]);
        }
        i = i + 1;
    }
    assert(v@.subrange(0, v@.len() as int) == v@);
    out
}

/// Whether `c` stands in `s`.
pub fn contains_char(s: &str, c: char) -> (r: bool)
    ensures
        r == s@.contains(c),
{
    let v = chars_of(s);
    let i: usize = find_char(&v, c, 0);
    proof {
        lemma_find_from(v@, c, 0);
        if i < v@.len() {
            assert(v@[i as int] == c);
        }
    }
    i < v.len()
}

/// Whether `x` is one of the texts of `v`.
pub fn contains_text(v: &Vec<String>, x: &str) -> (r: bool)
    ensures
        r == texts(v@).contains(x@),
{
    let ghost s = texts(v@);
    let mut i: usize = 0;
    while i < v.len()
        invariant
            i <= v@.len(),
            s == texts(v@),
            forall|j: int| 0 <= j < i ==> s[j] != x@,
        decreases v@.len() - i,
    {
        assert(s[i as int] == v@[i as int]@);
        if same(v[i].as_str(), x) {
            return true;
        }
        i = i + 1;
    }
    false
}

proof fn lemma_decimal_bound(s: Seq<char>, i: int)
    requires
        all_digits(s),
        0 <= i <= s.len(),
    ensures
        0 <= decimal_value(s.subrange(0, i)) <= decimal_value(s),
    decreases s.len(),
{
    if i == s.len() {
        assert(s.subrange(0, i) == s);
        if i > 0 {
            assert(all_digits(s.drop_last()));
            lemma_decimal_bound(s.drop_last(), i - 1);
            assert(is_digit(s.last()));
        }
    } else {
        assert(all_digits(s.drop_last()));
        lemma_decimal_bound(s.drop_last(), i);
        assert(s.drop_last().subrange(0, i) == s.subrange(0, i));
        assert(is_digit(s.last()));
    }
}

/// The unsigned number written in `s`, if it is one that is at most `max`.
fn parse_bounded(s: &str, max: u64) -> (r: Option<u64>)
    ensures
        match r {
            Some(n) => parsed_unsigned(s@, max as int) == Some(n as int) && n <= max,
            None => parsed_unsigned(s@, max as int) is None,
        },
{
    let v = chars_of(s);
    let mut from: usize = 0;
    if v.len() > 0 && v[0] == '+' {
        from = 1;
    }
    let ghost d = unsigned_digits(s@);
    assert(d == v@.subrange(from as int, v@.len() as int));
    if from == v.len() {
        return None;
    }
    let mut n: u64 = 0;
    let mut i: usize = from;
    assert(d.subrange(0, 0) == Seq::<char>::empty());
    while i < v.len()
        invariant
            v@ == s@,
            from <= i <= v@.len(),
            d == unsigned_digits(s@),
            d == v@.subrange(from as int, v@.len() as int),
            forall|j: int| 0 <= j < i - from ==> is_digit(#[trigger] d[j]),
            n == decimal_value(d.subrange(0, i - from)),
            n <= max,
        decreases v@.len() - i,
    {
        let c: char = v[i];
        let ghost k = i - from;
        assert(d[k] == c);
        if !(c >= '0' && c <= '9') {
            return None;
        }
        let digit: u64 = (c as u32 - '0' as u32) as u64;
        let ghost t = d.subrange(0, k + 1);
        proof {
            assert(t.drop_last() == d.subrange(0, k));
            assert(t.last() == c);
            assert(decimal_value(t) == 10 * n + digit);
            if all_digits(d) {
                lemma_decimal_bound(d, k + 1);
            }
        }
        if n > max / 10 {
            return None;
        }
        if digit > max - 10 * n {
            return None;
        }
        n = 10 * n + digit;
        i = i + 1;
    }
    assert(d.subrange(0, d.len() as int) == d);
    Some(n)
}

/// `s` as a `u32`, as the standard library parses one.
pub fn parse_u32(s: &str) -> (r: Option<u32>)
    ensures
        match r {
            Some(n) => parsed_unsigned(s@, u32::MAX as int) == Some(n as int),
            None => parsed_unsigned(s@, u32::MAX as int) is None,
        },
{
    match parse_bounded(s, u32::MAX as u64) {
        Some(n) => Some(n as u32),
        None => None,
    }
}

/// `s` as a `usize`, as the standard library parses one.
pub fn parse_usize(s: &str) -> (r: Option<usize>)
    ensures
        match r {
            Some(n) => parsed_unsigned(s@, usize::MAX as int) == Some(n as int),
            None => parsed_unsigned(s@, usize::MAX as int) is None,
        },
{
    match parse_bounded(s, usize::MAX as u64) {
        Some(n) => Some(n as usize),
        None => None,
    }
}

fn digit(d: u64) -> (c: char)
    requires
        d < 10,
    ensures
        c == digit_char(d as int),
{
    if d == 0 {
        '0'
    } else if d == 1 {
        '1'
    } else if d == 2 {
        '2'
    } else if d == 3 {
        '3'
    } else if d == 4 {
        '4'
    } else if d == 5 {
        '5'
    } else if d == 6 {
        '6'
    } else if d == 7 {
        '7'
    } else if d == 8 {
        '8'
    } else {
        '9'
    }
}

/// The decimal notation of `n`.
pub fn show_number(n: u64) -> (r: String)
    ensures
        r@ == decimal(n as nat),
    decreases n,
{
    if n < 10 {
        let mut r = String::new();
        r.push(digit(n));
        assert(r@ == seq![digit_char(n as int)]);
        r
    } else {
        let mut r = show_number(n / 10);
        r.push(digit(n % 10));
        r
    }
}

fn char_less(a: char, b: char) -> (r: bool)
    ensures
        r == (a < b),
{
    (a as u32) < (b as u32)
}

/// Whether `a` comes before `b` in alphabetical order.
pub fn less(a: &str, b: &str) -> (r: bool)
    ensures
        r == text_lt(a@, b@),
{
    let v = chars_of(a);
    let w = chars_of(b);
    let mut i: usize = 0;
    assert(v@.subrange(0, v@.len() as int) == v@);
    assert(w@.subrange(0, w@.len() as int) == w@);
    while i < v.len() && i < w.len()
        invariant
            v@ == a@,
            w@ == b@,
            i <= v@.len(),
            i <= w@.len(),
            text_lt(v@, w@) == text_lt(
                v@.subrange(i as int, v@.len() as int),
                w@.subrange(i as int, w@.len() as int),
            ),
        decreases v@.len() - i,
    {
        let ghost x = v@.subrange(i as int, v@.len() as int);
        let ghost y = w@.subrange(i as int, w@.len() as int);
        assert(x[0] == v@[i as int] && y[0] == w@[i as int]);
        assert(x.subrange(1, x.len() as int) == v@.subrange(i + 1, v@.len() as int));
        assert(y.subrange(1, y.len() as int) == w@.subrange(i + 1, w@.len() as int));
        if v[i] != w[i] {
            return char_less(v[i], w[i]);
        }
        i = i + 1;
    }
    i < w.len()
}

pub proof fn lemma_text_lt_irreflexive(a: Seq<char>)
    ensures
        !text_lt(a, a),
    decreases a.len(),
{
    if a.len() > 0 {
        lemma_text_lt_irreflexive(a.subrange(1, a.len() as int));
    }
}

pub proof fn lemma_text_lt_transitive(a: Seq<char>, b: Seq<char>, c: Seq<char>)
    requires
        text_lt(a, b),
        text_lt(b, c),
    ensures
        text_lt(a, c),
    decreases a.len(),
{
    if a.len() > 0 && a[0] == b[0] && b[0] == c[0] {
        lemma_text_lt_transitive(
            a.subrange(1, a.len() as int),
            b.subrange(1, b.len() as int),
            c.subrange(1, c.len() as int),
        );
    }
}

pub proof fn lemma_text_lt_total(a: Seq<char>, b: Seq<char>)
    ensures
        a == b || text_lt(a, b) || text_lt(b, a),
    decreases a.len(),
{
    if a.len() == 0 && b.len() == 0 {
        assert(a == b);
    } else if a.len() > 0 && b.len() > 0 && a[0] == b[0] {
        let x = a.subrange(1, a.len() as int);
        let y = b.subrange(1, b.len() as int);
        lemma_text_lt_total(x, y);
        if x == y {
            assert(a == seq![a[0]] + x);
            assert(b == seq![b[0]] + y);
        }
    }
}

} // verus!
