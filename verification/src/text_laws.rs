//! What holds of the operations on texts.

use vstd::prelude::*;

use crate::text::{
    after_prefix, all_digits, before_suffix, decimal, decimal_value, digit_char, find_from,
    find_text_from, has_prefix, has_suffix, is_char, is_digit, is_space, joined, lemma_find_from,
    lemma_find_is, lemma_rfind_before, lines_of, parsed_unsigned, rfind_before, split_on, text_lt,
    trim_end, trim_start, trimmed, trimmed_end_of, trimmed_of, trimmed_start_of, unsigned_digits,
    without,
};

verus! {

/// What stands behind a prefix is the rest of the text.
pub proof fn prefixes_stand_before_the_rest(p: Seq<char>, r: Seq<char>)
    ensures
        has_prefix(p + r, p),
        after_prefix(p + r, p) == Some(r),
{
    assert((p + r).subrange(0, p.len() as int) =~= p);
    assert((p + r).subrange(p.len() as int, (p + r).len() as int) =~= r);
}

/// A text has a prefix only if it is the prefix and a rest.
pub proof fn texts_without_prefix(s: Seq<char>, p: Seq<char>)
    ensures
        has_prefix(s, p) == after_prefix(s, p) is Some,
        match after_prefix(s, p) {
            Some(r) => s == p + r,
            None => forall|r: Seq<char>| s != #[trigger] (p + r),
        },
{
    match after_prefix(s, p) {
        Some(r) => {
            assert(s =~= p + r);
        },
        None => {
            assert forall|r: Seq<char>| s != #[trigger] (p + r) by {
                prefixes_stand_before_the_rest(p, r);
            }
        },
    }
}

/// What stands before a suffix is the rest of the text.
pub proof fn suffixes_stand_behind_the_rest(r: Seq<char>, p: Seq<char>)
    ensures
        has_suffix(r + p, p),
        before_suffix(r + p, p) == Some(r),
{
    let s = r + p;
    assert(s.subrange(s.len() - p.len(), s.len() as int) =~= p);
    assert(s.subrange(0, s.len() - p.len()) =~= r);
}

/// A text has a suffix only if it is a rest and the suffix.
pub proof fn texts_without_suffix(s: Seq<char>, p: Seq<char>)
    ensures
        has_suffix(s, p) == before_suffix(s, p) is Some,
        match before_suffix(s, p) {
            Some(r) => s == r + p,
            None => forall|r: Seq<char>| s != #[trigger] (r + p),
        },
{
    match before_suffix(s, p) {
        Some(r) => {
            assert(s =~= r + p);
        },
        None => {
            assert forall|r: Seq<char>| s != #[trigger] (r + p) by {
                suffixes_stand_behind_the_rest(r, p);
            }
        },
    }
}

/// A character is found where it stands first.
pub proof fn characters_are_found_first(a: Seq<char>, c: char, b: Seq<char>)
    requires
        !a.contains(c),
    ensures
        find_from(a + seq![c] + b, c, 0) == a.len(),
        find_from(a, c, 0) == a.len(),
{
    let s = a + seq![c] + b;
    assert forall|j: int| 0 <= j < a.len() implies s[j] != c && a[j] != c by {
        assert(a.contains(a[j]));
    }
    lemma_find_is(s, c, 0, a.len() as int);
    lemma_find_is(a, c, 0, a.len() as int);
}

/// A character is found from behind where it stands last.
pub proof fn characters_are_found_last(a: Seq<char>, c: char, b: Seq<char>)
    requires
        !b.contains(c),
    ensures
        rfind_before(a + seq![c] + b, c, (a + seq![c] + b).len() as int) == a.len(),
        rfind_before(b, c, b.len() as int) == -1,
{
    let s = a + seq![c] + b;
    lemma_rfind_before(s, c, s.len() as int);
    let i = rfind_before(s, c, s.len() as int);
    assert(s[a.len() as int] == c);
    if i > a.len() {
        assert(b[i - a.len() - 1] == c);
    }
    lemma_rfind_before(b, c, b.len() as int);
    let k = rfind_before(b, c, b.len() as int);
    if k >= 0 {
        assert(b[k] == c);
    }
    if b.len() == 0 {
        assert(k == -1);
    }
}

/// A text is found where it stands first.
pub proof fn texts_are_found_first(s: Seq<char>, p: Seq<char>, from: int)
    requires
        0 <= from <= s.len(),
    ensures
        match find_text_from(s, p, from) {
            Some(i) => from <= i && i + p.len() <= s.len() && s.subrange(i, i + p.len()) == p
                && forall|j: int|
                from <= j < i && j + p.len() <= s.len() ==> #[trigger] s.subrange(j, j + p.len())
                    != p,
            None => forall|j: int|
                from <= j && j + p.len() <= s.len() ==> #[trigger] s.subrange(j, j + p.len()) != p,
        },
    decreases s.len() - from,
{
    if from < s.len() {
        texts_are_found_first(s, p, from + 1);
    } else {
        assert(find_text_from(s, p, from + 1) is None);
    }
}

/// A text whose first character does not occur before it is found.
pub proof fn texts_are_found_at_their_start(a: Seq<char>, p: Seq<char>, b: Seq<char>)
    requires
        p.len() > 0,
        !a.contains(p[0]),
    ensures
        find_text_from(a + p + b, p, 0) == Some(a.len() as int),
{
    lemma_found_from(a, p, b, 0);
}

proof fn lemma_found_from(a: Seq<char>, p: Seq<char>, b: Seq<char>, from: int)
    requires
        p.len() > 0,
        !a.contains(p[0]),
        0 <= from <= a.len(),
    ensures
        find_text_from(a + p + b, p, from) == Some(a.len() as int),
    decreases a.len() - from,
{
    let s = a + p + b;
    if from < a.len() {
        assert(a.contains(a[from]));
        assert(s[from] == a[from]);
        if from + p.len() <= s.len() {
            assert(s.subrange(from, from + p.len())[0] == s[from]);
        }
        lemma_found_from(a, p, b, from + 1);
    } else {
        assert(s.subrange(from, from + p.len()) =~= p);
    }
}

/// A text is cut at every character `c`.
pub proof fn texts_are_cut_everywhere(a: Seq<char>, c: char, b: Seq<char>)
    ensures
        split_on(a + seq![c] + b, c) == split_on(a, c) + split_on(b, c),
        !a.contains(c) ==> split_on(a, c) == seq![a],
    decreases a.len(),
{
    let s = a + seq![c] + b;
    lemma_find_from(a, c, 0);
    let i = find_from(a, c, 0);
    if i < a.len() {
        let t = a.subrange(i + 1, a.len() as int);
        assert(a.contains(a[i]));
        lemma_find_is(s, c, 0, i);
        assert(s.subrange(0, i) =~= a.subrange(0, i));
        assert(s.subrange(i + 1, s.len() as int) =~= t + seq![c] + b);
        texts_are_cut_everywhere(t, c, b);
        assert(split_on(s, c) =~= split_on(a, c) + split_on(b, c));
    } else {
        assert(s[a.len() as int] == c);
        lemma_find_is(s, c, 0, a.len() as int);
        assert(s.subrange(0, a.len() as int) =~= a);
        assert(s.subrange(a.len() as int + 1, s.len() as int) =~= b);
    }
}

/// The pieces of a text hold no cutting character, and with one between each two of them they are
/// the text again.
pub proof fn pieces_make_up_the_text(s: Seq<char>, c: char)
    ensures
        split_on(s, c).len() > 0,
        joined(split_on(s, c), seq![c]) == s,
        forall|i: int| 0 <= i < split_on(s, c).len() ==> !(#[trigger] split_on(s, c)[i]).contains(c),
    decreases s.len(),
{
    lemma_find_from(s, c, 0);
    let i = find_from(s, c, 0);
    let sep = seq![c];
    if i < s.len() {
        let a = s.subrange(0, i);
        let t = s.subrange(i + 1, s.len() as int);
        let rest = split_on(t, c);
        pieces_make_up_the_text(t, c);
        pieces_are_joined_in_order(seq![a], rest, sep);
        assert(joined(seq![a], sep) == a);
        assert(s =~= a + sep + t);
        assert forall|k: int| 0 <= k < split_on(s, c).len() implies !(#[trigger] split_on(
            s,
            c,
        )[k]).contains(c) by {
            if k > 0 {
                assert(split_on(s, c)[k] == rest[k - 1]);
            }
        }
    } else {
        assert(joined(seq![s], sep) == s);
    }
}

/// Joined texts keep their order, with the separator between each two of them.
pub proof fn pieces_are_joined_in_order(a: Seq<Seq<char>>, b: Seq<Seq<char>>, sep: Seq<char>)
    requires
        a.len() > 0,
        b.len() > 0,
    ensures
        joined(a + b, sep) == joined(a, sep) + sep + joined(b, sep),
    decreases b.len(),
{
    let v = a + b;
    let t = b.drop_last();
    assert(v.drop_last() =~= a + t);
    assert(v.last() == b.last());
    if b.len() == 1 {
        assert(a + t =~= a);
        assert(joined(b, sep) == b[0]);
    } else {
        pieces_are_joined_in_order(a, t, sep);
        assert(joined(v, sep) =~= joined(a, sep) + sep + joined(b, sep));
    }
}

/// One text joined is itself, and none is the empty text.
pub proof fn single_pieces_stand_alone(x: Seq<char>, sep: Seq<char>)
    ensures
        joined(seq![x], sep) == x,
        joined(Seq::empty(), sep) == Seq::<char>::empty(),
{
}

/// A line ends at the next line break, which may be two characters.
pub proof fn lines_end_at_line_breaks(a: Seq<char>, b: Seq<char>)
    requires
        !a.contains('\n'),
    ensures
        a.len() == 0 || a.last() != '\r' ==> lines_of(a + seq!['\n'] + b) == seq![a] + lines_of(b),
        lines_of(a + seq!['\r', '\n'] + b) == seq![a] + lines_of(b),
        a.len() > 0 ==> lines_of(a) == seq![a],
        a.len() == 0 ==> lines_of(a).len() == 0,
{
    let s = a + seq!['\n'] + b;
    characters_are_found_first(a, '\n', b);
    assert(s.subrange(0, a.len() as int) =~= a);
    assert(s.subrange(a.len() as int + 1, s.len() as int) =~= b);
    let d = a.push('\r');
    let t = a + seq!['\r', '\n'] + b;
    assert(t =~= d + seq!['\n'] + b);
    if d.contains('\n') {
        let k = choose|k: int| 0 <= k < d.len() && d[k] == '\n';
        assert(a[k] == '\n');
    }
    characters_are_found_first(d, '\n', b);
    assert(t.subrange(0, d.len() as int) =~= d);
    assert(t.subrange(d.len() as int + 1, t.len() as int) =~= b);
    assert(d.drop_last() =~= a);
}

/// What is dropped from the start of a text ends at the first character that stays.
pub proof fn starts_are_trimmed(a: Seq<char>, m: Seq<char>, drop: spec_fn(char) -> bool)
    requires
        forall|i: int| 0 <= i < a.len() ==> drop(#[trigger] a[i]),
        m.len() > 0 ==> !drop(m[0]),
    ensures
        trim_start(a + m, drop) == m,
    decreases a.len(),
{
    if a.len() == 0 {
        assert(a + m =~= m);
    } else {
        let t = a.subrange(1, a.len() as int);
        assert(drop(a[0]));
        assert((a + m).subrange(1, (a + m).len() as int) =~= t + m);
        assert forall|i: int| 0 <= i < t.len() implies drop(#[trigger] t[i]) by {
            assert(t[i] == a[i + 1]);
        }
        starts_are_trimmed(t, m, drop);
    }
}

/// What is dropped from the end of a text starts behind the last character that stays.
pub proof fn ends_are_trimmed(m: Seq<char>, b: Seq<char>, drop: spec_fn(char) -> bool)
    requires
        forall|i: int| 0 <= i < b.len() ==> drop(#[trigger] b[i]),
        m.len() > 0 ==> !drop(m.last()),
    ensures
        trim_end(m + b, drop) == m,
    decreases b.len(),
{
    if b.len() == 0 {
        assert(m + b =~= m);
    } else {
        let t = b.drop_last();
        assert(drop(b[b.len() - 1]));
        assert((m + b).drop_last() =~= m + t);
        assert forall|i: int| 0 <= i < t.len() implies drop(#[trigger] t[i]) by {
            assert(t[i] == b[i]);
        }
        ends_are_trimmed(m, t, drop);
    }
}

/// Spaces around a text are trimmed, and spaces inside it stay.
pub proof fn spaces_around_are_trimmed(a: Seq<char>, m: Seq<char>, b: Seq<char>)
    requires
        forall|i: int| 0 <= i < a.len() ==> is_space(#[trigger] a[i]),
        forall|i: int| 0 <= i < b.len() ==> is_space(#[trigger] b[i]),
        m.len() > 0 ==> !is_space(m[0]) && !is_space(m.last()),
    ensures
        trimmed(a + m + b) == m,
{
    let drop = |c: char| is_space(c);
    if m.len() == 0 {
        let e = Seq::<char>::empty();
        let w = a + b;
        assert(a + m + b =~= w + e);
        assert forall|i: int| 0 <= i < w.len() implies drop(#[trigger] w[i]) by {
            if i < a.len() {
                assert(w[i] == a[i]);
            } else {
                assert(w[i] == b[i - a.len()]);
            }
        }
        starts_are_trimmed(w, e, drop);
        assert(m =~= e);
    } else {
        assert(a + m + b =~= a + (m + b));
        assert((m + b)[0] == m[0]);
        starts_are_trimmed(a, m + b, drop);
        ends_are_trimmed(m, b, drop);
    }
}

/// Which ASCII characters are spaces.
pub proof fn ascii_spaces(c: char)
    requires
        (c as u32) < 128,
    ensures
        is_space(c) == (c == ' ' || c == '\t' || c == '\n' || c == '\r' || c == '\u{b}' || c
            == '\u{c}'),
{
    assert(' ' as u32 == 0x20 && '\t' as u32 == 9 && '\n' as u32 == 10 && '\r' as u32 == 13);
    assert('\u{b}' as u32 == 11 && '\u{c}' as u32 == 12);
    assert(c as u32 == 0x20 ==> c == ' ');
    assert(c as u32 == 9 ==> c == '\t');
    assert(c as u32 == 10 ==> c == '\n');
    assert(c as u32 == 11 ==> c == '\u{b}');
    assert(c as u32 == 12 ==> c == '\u{c}');
    assert(c as u32 == 13 ==> c == '\r');
}

/// Copies of a character around a text are trimmed.
pub proof fn characters_around_are_trimmed(a: Seq<char>, m: Seq<char>, b: Seq<char>, c: char)
    requires
        forall|i: int| 0 <= i < a.len() ==> #[trigger] a[i] == c,
        forall|i: int| 0 <= i < b.len() ==> #[trigger] b[i] == c,
        m.len() > 0,
        m[0] != c,
        m.last() != c,
    ensures
        trimmed_of(a + m + b, c) == m,
        trimmed_start_of(a + m + b, c) == m + b,
        trimmed_end_of(a + m + b, c) == a + m,
        trimmed_start_of(a, c).len() == 0,
        trimmed_end_of(a, c).len() == 0,
        trimmed_of(a, c).len() == 0,
{
    let drop = is_char(c);
    assert(a + m + b =~= a + (m + b));
    assert((m + b)[0] == m[0]);
    starts_are_trimmed(a, m + b, drop);
    ends_are_trimmed(m, b, drop);
    assert((a + m).last() == m.last());
    ends_are_trimmed(a + m, b, drop);
    let e = Seq::<char>::empty();
    assert(a + e =~= a && e + a =~= a);
    starts_are_trimmed(a, e, drop);
    ends_are_trimmed(e, a, drop);
}

/// A removed character is gone, and the others stay in their order.
pub proof fn removed_characters_are_gone(s: Seq<char>, c: char)
    ensures
        without(s, c) == s.filter(|x: char| x != c),
    decreases s.len(),
{
    reveal(Seq::filter);
    if s.len() > 0 {
        removed_characters_are_gone(s.drop_last(), c);
    }
}

/// Digits are the characters from `0` to `9`, and their values those numbers.
pub proof fn digits_have_their_values(d: int)
    requires
        0 <= d < 10,
    ensures
        is_digit(digit_char(d)),
        decimal_value(seq![digit_char(d)]) == d,
        digit_char(0) == '0',
        digit_char(1) == '1',
        digit_char(9) == '9',
{
    let s = seq![digit_char(d)];
    assert(s.drop_last().len() == 0);
    assert(decimal_value(s.drop_last()) == 0);
    assert('0' as u32 == 48 && '9' as u32 == 57);
    assert(digit_char(d) as u32 == 48 + d);
    assert('1' as u32 == 49);
}

/// A further digit counts for ten times less than those before it.
pub proof fn digits_count_by_ten(s: Seq<char>, d: int)
    requires
        0 <= d < 10,
    ensures
        decimal_value(s.push(digit_char(d))) == 10 * decimal_value(s) + d,
{
    assert(s.push(digit_char(d)).drop_last() =~= s);
    assert('0' as u32 == 48);
    assert(digit_char(d) as u32 == 48 + d);
}

/// A number is written in decimal digits, without leading zeros, and read back as itself.
pub proof fn numbers_are_read_back(n: nat, max: int)
    requires
        n <= max,
    ensures
        all_digits(decimal(n)),
        decimal(n).len() > 0,
        n > 0 ==> decimal(n)[0] != '0',
        decimal_value(decimal(n)) == n,
        parsed_unsigned(decimal(n), max) == Some(n as int),
        parsed_unsigned(seq!['+'] + decimal(n), max) == Some(n as int),
{
    lemma_decimal(n);
    let d = decimal(n);
    assert(is_digit(d[0]));
    assert(unsigned_digits(d) == d);
    let p = seq!['+'] + d;
    assert(p.subrange(1, p.len() as int) =~= d);
}

proof fn lemma_decimal(n: nat)
    ensures
        all_digits(decimal(n)),
        decimal(n).len() > 0,
        n > 0 ==> decimal(n)[0] != '0',
        decimal_value(decimal(n)) == n,
    decreases n,
{
    let d = (n % 10) as int;
    if n < 10 {
        digits_have_their_values(n as int);
        assert('0' as u32 == 48);
        assert(digit_char(n as int) as u32 == 48 + n);
    } else {
        digits_have_their_values(d);
        lemma_decimal(n / 10);
        digits_count_by_ten(decimal(n / 10), d);
        assert(n == 10 * (n / 10) + n % 10);
    }
}

/// What is no number, or too large a one, is not read. A plus sign before a number does not matter.
pub proof fn other_texts_are_no_numbers(d: Seq<char>, max: int)
    ensures
        all_digits(d) && d.len() > 0 && decimal_value(d) <= max ==> parsed_unsigned(d, max) == Some(
            decimal_value(d),
        ) && parsed_unsigned(seq!['+'] + d, max) == Some(decimal_value(d)),
        !all_digits(d) || d.len() == 0 || decimal_value(d) > max ==> parsed_unsigned(
            seq!['+'] + d,
            max,
        ) is None,
        (d.len() == 0 || d[0] != '+') && (!all_digits(d) || d.len() == 0 || decimal_value(d) > max)
            ==> parsed_unsigned(d, max) is None,
        !all_digits(d) ==> exists|i: int| 0 <= i < d.len() && !('0' <= #[trigger] d[i] && d[i] <= '9'),
{
    let p = seq!['+'] + d;
    assert(p.subrange(1, p.len() as int) =~= d);
    if all_digits(d) && d.len() > 0 {
        assert(is_digit(d[0]));
    }
    if !all_digits(d) {
        let i = choose|i: int| 0 <= i < d.len() && !is_digit(#[trigger] d[i]);
        assert(!('0' <= d[i] && d[i] <= '9'));
    }
}

/// Of two texts the one that is smaller at the first difference comes first; a text that is the
/// start of another comes before it.
pub proof fn texts_are_compared_at_the_first_difference(a: Seq<char>, b: Seq<char>, k: int)
    requires
        0 <= k <= a.len(),
        k <= b.len(),
        a.subrange(0, k) == b.subrange(0, k),
    ensures
        k < a.len() && k < b.len() && a[k] != b[k] ==> text_lt(a, b) == (a[k] < b[k]),
        k == a.len() && k < b.len() ==> text_lt(a, b),
        k == b.len() ==> !text_lt(a, b),
    decreases k,
{
    if k > 0 {
        let x = a.subrange(1, a.len() as int);
        let y = b.subrange(1, b.len() as int);
        assert(a[0] == a.subrange(0, k)[0] && b[0] == b.subrange(0, k)[0]);
        assert(x.subrange(0, k - 1) =~= a.subrange(0, k).subrange(1, k));
        assert(y.subrange(0, k - 1) =~= b.subrange(0, k).subrange(1, k));
        texts_are_compared_at_the_first_difference(x, y, k - 1);
    }
}

} // verus!
