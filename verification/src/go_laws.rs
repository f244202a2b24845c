//! What holds of the names of Go functions.

use vstd::prelude::*;

use crate::go::{
    ends_in_closure, entry_point, is_closure_segment, last_dotted, receiver_split, without_closures,
};
use crate::text::{all_digits, find_text_from, is_digit, rfind_before, trimmed_start_of};
use crate::text_laws::{
    characters_around_are_trimmed, characters_are_found_last, prefixes_stand_before_the_rest,
    suffixes_stand_behind_the_rest, texts_are_found_at_their_start, texts_are_found_first,
    texts_without_suffix,
};

verus! {

/// A method is split into its class and its name, whether its receiver is a pointer or not.
pub proof fn methods_are_split(class: Seq<char>, method: Seq<char>)
    requires
        class.len() > 0,
        class[0] != '(',
        class[0] != '*',
        !class.contains(')'),
    ensures
        receiver_split("(*"@ + class + ")."@ + method) == (Some(class), method),
        receiver_split("("@ + class + ")."@ + method) == (Some(class), method),
{
    reveal_strlit("(*");
    reveal_strlit("(");
    reveal_strlit(").");
    assert("(*"@ =~= seq!['(', '*']);
    assert("("@ =~= seq!['(']);
    lemma_split_at(seq!['(', '*'] + class, method);
    lemma_split_at(seq!['('] + class, method);
    assert(class.contains(class[class.len() - 1]));
    let none = Seq::<char>::empty();
    // With a star.
    let open = seq!['('];
    let star = seq!['*'];
    let close = seq![')'];
    let whole = seq!['(', '*'] + class + close;
    let inner = star + class + close;
    assert(whole =~= open + (star + class) + close);
    lemma_start(open, star + class + close, '(');
    assert(whole =~= open + (star + class + close));
    lemma_start(star, class + close, '*');
    assert(inner =~= star + (class + close));
    characters_around_are_trimmed(none, class, close, ')');
    assert(none + class + close =~= class + close);
    assert(none + class =~= class);
    // Without one.
    let bare = open + class + close;
    lemma_start(open, class + close, '(');
    assert(bare =~= open + (class + close));
    lemma_start(none, class + close, '*');
    assert(none + (class + close) =~= class + close);
    let e = seq!['(', '*'] + class + ")."@ + method;
    assert(e.subrange(0, (seq!['(', '*'] + class).len() as int + 1) =~= whole);
    assert(e.subrange((seq!['(', '*'] + class).len() as int + 2, e.len() as int) =~= method);
    let f = seq!['('] + class + ")."@ + method;
    assert(f.subrange(0, (seq!['('] + class).len() as int + 1) =~= bare);
    assert(f.subrange((seq!['('] + class).len() as int + 2, f.len() as int) =~= method);
}

proof fn lemma_start(a: Seq<char>, m: Seq<char>, c: char)
    requires
        forall|i: int| 0 <= i < a.len() ==> #[trigger] a[i] == c,
        m.len() > 0,
        m[0] != c,
    ensures
        trimmed_start_of(a + m, c) == m,
{
    crate::text_laws::starts_are_trimmed(a, m, crate::text::is_char(c));
}

proof fn lemma_split_at(a: Seq<char>, b: Seq<char>)
    requires
        !a.contains(')'),
    ensures
        find_text_from(a + ")."@ + b, ")."@, 0) == Some(a.len() as int),
{
    reveal_strlit(").");
    assert(")."@[0] == ')');
    texts_are_found_at_their_start(a, ")."@, b);
}

/// A name without a receiver is the name of a function of no class.
pub proof fn functions_have_no_class(entry: Seq<char>)
    requires
        forall|i: int|
            0 <= i < entry.len() - 1 ==> !(#[trigger] entry[i] == ')' && entry[i + 1] == '.'),
    ensures
        receiver_split(entry) == (None::<Seq<char>>, entry),
{
    reveal_strlit(").");
    texts_are_found_first(entry, ")."@, 0);
    if find_text_from(entry, ")."@, 0) is Some {
        let i = find_text_from(entry, ")."@, 0)->0;
        let w = entry.subrange(i, i + ")."@.len());
        assert(w[0] == entry[i] && w[1] == entry[i + 1]);
    }
}

/// A method value is named after its method.
pub proof fn method_values_name_their_method(m: Seq<char>)
    ensures
        entry_point(m + "-fm"@) == m,
{
    suffixes_stand_behind_the_rest(m, "-fm"@);
}

/// The segment of a closure is `func` and digits.
pub proof fn closures_are_numbered(d: Seq<char>)
    ensures
        is_closure_segment("func"@ + d) == (d.len() > 0 && forall|i: int|
            0 <= i < d.len() ==> '0' <= #[trigger] d[i] && d[i] <= '9'),
{
    prefixes_stand_before_the_rest("func"@, d);
    if all_digits(d) {
        assert forall|i: int| 0 <= i < d.len() implies '0' <= #[trigger] d[i] && d[i] <= '9' by {
            assert(is_digit(d[i]));
        }
    } else {
        let i = choose|i: int| 0 <= i < d.len() && !is_digit(#[trigger] d[i]);
        assert(!('0' <= d[i] && d[i] <= '9'));
    }
}

/// A closure is named after the function around it: all segments of closures are left out, and of
/// what stands before them the last segment stays.
pub proof fn closures_name_the_function_around_them(s: Seq<char>, d: Seq<char>)
    requires
        d.len() > 0,
        all_digits(d),
    ensures
        ends_in_closure(s + ".func"@ + d),
        ends_in_closure(s) ==> entry_point(s + ".func"@ + d) == entry_point(s),
        !ends_in_closure(s) ==> entry_point(s + ".func"@ + d) == last_dotted(s),
{
    reveal_strlit(".func");
    reveal_strlit("func");
    reveal_strlit("-fm");
    let f = "func"@ + d;
    let whole = s + ".func"@ + d;
    assert(whole =~= s + seq!['.'] + f);
    lemma_digits_are_no_dots(d);
    if f.contains('.') {
        let k = choose|k: int| 0 <= k < f.len() && f[k] == '.';
        assert(k >= 4);
        assert(d[k - 4] == '.');
    }
    characters_are_found_last(s, '.', f);
    assert(whole.subrange(s.len() as int + 1, whole.len() as int) =~= f);
    assert(whole.subrange(0, s.len() as int) =~= s);
    prefixes_stand_before_the_rest("func"@, d);
    assert(ends_in_closure(whole));
    assert(without_closures(whole) == without_closures(s));
    assert(whole.subrange(whole.len() - d.len(), whole.len() as int) =~= d);
    lemma_ends_in_digit(whole, d);
    if ends_in_closure(s) {
        let t = last_dotted(s);
        let e = t.subrange(4, t.len() as int);
        crate::text::lemma_rfind_before(s, '.', s.len() as int);
        assert(is_closure_segment(t));
        assert(e.len() > 0 && all_digits(e));
        assert(is_digit(e[e.len() - 1]));
        assert(s.last() == e[e.len() - 1]);
        lemma_no_method_value(s);
    } else {
        assert(without_closures(s) == s);
    }
}

proof fn lemma_digits_are_no_dots(d: Seq<char>)
    requires
        all_digits(d),
    ensures
        !d.contains('.'),
{
    if d.contains('.') {
        let k = choose|k: int| 0 <= k < d.len() && d[k] == '.';
        assert(is_digit(d[k]));
    }
}

proof fn lemma_ends_in_digit(s: Seq<char>, d: Seq<char>)
    requires
        d.len() > 0,
        all_digits(d),
        s.len() >= d.len(),
        s.subrange(s.len() - d.len(), s.len() as int) == d,
    ensures
        crate::text::before_suffix(s, "-fm"@) is None,
{
    assert(is_digit(d[d.len() - 1]));
    assert(s.last() == s.subrange(s.len() - d.len(), s.len() as int)[d.len() - 1]);
    lemma_no_method_value(s);
}

proof fn lemma_no_method_value(s: Seq<char>)
    requires
        s.len() > 0,
        is_digit(s.last()),
    ensures
        crate::text::before_suffix(s, "-fm"@) is None,
{
    reveal_strlit("-fm");
    texts_without_suffix(s, "-fm"@);
    if let Some(r) = crate::text::before_suffix(s, "-fm"@) {
        assert((r + "-fm"@).last() == 'm');
    }
}

/// The last segment of a name is what stands behind its last dot.
pub proof fn last_segments_stand_behind_dots(a: Seq<char>, f: Seq<char>)
    requires
        !f.contains('.'),
    ensures
        last_dotted(a + seq!['.'] + f) == f,
        last_dotted(f) == f,
        !ends_in_closure(f),
        ends_in_closure(a + seq!['.'] + f) == is_closure_segment(f),
{
    let s = a + seq!['.'] + f;
    characters_are_found_last(a, '.', f);
    assert(s.subrange(a.len() as int + 1, s.len() as int) =~= f);
    assert(f.subrange(0, f.len() as int) =~= f);
    assert(rfind_before(f, '.', f.len() as int) == -1);
}

/// Other names are those of their functions.
pub proof fn plain_names_stay(s: Seq<char>)
    requires
        forall|m: Seq<char>| s != #[trigger] (m + "-fm"@),
        !ends_in_closure(s),
    ensures
        entry_point(s) == s,
{
    texts_without_suffix(s, "-fm"@);
}

} // verus!
