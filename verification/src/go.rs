//! How Go spells the names of functions.

use vstd::prelude::*;

use crate::text::{
    after_prefix, all_digits, before_suffix, chars_of, find_text, find_text_from, is_digit,
    opt_text, rfind_before, rfind_char, strip_prefix, strip_suffix, text_between, trim_end_char,
    trim_start_char, trimmed_end_of, trimmed_start_of,
};

verus! {

/// The receiver of a method without its brackets and stars.
pub open spec fn receiver_class(s: Seq<char>) -> Seq<char> {
    trimmed_end_of(trimmed_start_of(trimmed_start_of(s, '('), '*'), ')')
}

/// The class and the name of a function: `(*Type).Method` has a class, a bare name has none.
pub open spec fn receiver_split(entry: Seq<char>) -> (Option<Seq<char>>, Seq<char>) {
    match find_text_from(entry, ")."@, 0) {
        Some(i) => (
            Some(receiver_class(entry.subrange(0, i + 1))),
            entry.subrange(i + 2, entry.len() as int),
        ),
        None => (None, entry),
    }
}

/// Splits the spelling of a function into its class, if it is a method, and its name.
pub fn split_receiver(entry: &str) -> (r: (Option<String>, String))
    ensures
        (opt_text(r.0), r.1@) == receiver_split(entry@),
{
    let v = chars_of(entry);
    let mark = chars_of(").");
    proof {
        reveal_strlit(").");
    }
    match find_text(&v, &mark, 0) {
        Some(i) => {
            let receiver = text_between(&v, 0, i + 1);
            let bare = trim_end_char(
                trim_start_char(trim_start_char(receiver.as_str(), '(').as_str(), '*').as_str(),
                ')',
            );
            (Some(bare), text_between(&v, i + 2, v.len()))
        },
        None => (None, entry.to_string()),
    }
}

/// Whether a segment is that of a closure: `func` and a number.
pub open spec fn is_closure_segment(s: Seq<char>) -> bool {
    match after_prefix(s, "func"@) {
        Some(d) => d.len() > 0 && all_digits(d),
        None => false,
    }
}

/// The last segment of a dotted name.
pub open spec fn last_dotted(s: Seq<char>) -> Seq<char> {
    s.subrange(rfind_before(s, '.', s.len() as int) + 1, s.len() as int)
}

/// Whether the last of two or more segments is that of a closure.
pub open spec fn ends_in_closure(s: Seq<char>) -> bool {
    rfind_before(s, '.', s.len() as int) >= 0 && is_closure_segment(last_dotted(s))
}

/// The name without the segments of closures at its end.
pub open spec fn without_closures(s: Seq<char>) -> Seq<char>
    decreases s.len(),
{
    let dot = rfind_before(s, '.', s.len() as int);
    if ends_in_closure(s) && dot < s.len() {
        without_closures(s.subrange(0, dot))
    } else {
        s
    }
}

/// The named function behind a name that the Go runtime gives: a method value ends in `-fm`, a
/// closure in the segments of closures behind the chain of the functions around it.
pub open spec fn entry_point(s: Seq<char>) -> Seq<char> {
    match before_suffix(s, "-fm"@) {
        Some(m) => m,
        None => if ends_in_closure(s) {
            last_dotted(without_closures(s))
        } else {
            s
        },
    }
}

fn closure_segment(s: &str) -> (r: bool)
    ensures
        r == is_closure_segment(s@),
{
    match strip_prefix(s, "func") {
        Some(d) => {
            let v = chars_of(d.as_str());
            let mut i: usize = 0;
            while i < v.len()
                invariant
                    i <= v@.len(),
                    after_prefix(s@, "func"@) == Some(v@),
                    forall|j: int| 0 <= j < i ==> is_digit(#[trigger] v@[j]),
                decreases v@.len() - i,
            {
                let c = v[i];
                if !('0' <= c && c <= '9') {
                    return false;
                }
                i = i + 1;
            }
            v.len() > 0
        },
        None => false,
    }
}

/// Removes what the Go runtime adds to the name of a function: what is left is the name that the
/// declaration has.
pub fn normalize_go_entry_point(qualifier: &str) -> (r: String)
    ensures
        r@ == entry_point(qualifier@),
{
    if let Some(m) = strip_suffix(qualifier, "-fm") {
        return m;
    }
    let v = chars_of(qualifier);
    let ghost s = qualifier@;
    let mut end: usize = v.len();
    let mut had_closure = false;
    assert(s.subrange(0, s.len() as int) =~= s);
    loop
        invariant
            s == qualifier@,
            v@ == s,
            end <= v@.len(),
            before_suffix(s, "-fm"@) is None,
            without_closures(s.subrange(0, end as int)) == without_closures(s),
            had_closure ==> ends_in_closure(s),
            !had_closure ==> end == v@.len(),
        ensures
            had_closure == ends_in_closure(s),
            end <= v@.len(),
            !ends_in_closure(s.subrange(0, end as int)),
            without_closures(s.subrange(0, end as int)) == without_closures(s),
            v@ == s,
        decreases end,
    {
        let head = text_between(&v, 0, end);
        let ghost h = s.subrange(0, end as int);
        assert(end == s.len() ==> h =~= s);
        let w = chars_of(head.as_str());
        match rfind_char(&w, '.') {
            Some(dot) => {
                let tail = text_between(&w, dot + 1, w.len());
                if !closure_segment(tail.as_str()) {
                    break;
                }
                assert(ends_in_closure(h));
                assert(h.subrange(0, dot as int) =~= s.subrange(0, dot as int));
                had_closure = true;
                end = dot;
            },
            None => {
                break;
            },
        }
    }
    if had_closure {
        let head = text_between(&v, 0, end);
        let w = chars_of(head.as_str());
        match rfind_char(&w, '.') {
            Some(dot) => text_between(&w, dot + 1, w.len()),
            None => {
                assert(w@.subrange(0, w@.len() as int) =~= w@);
                head
            },
        }
    } else {
        qualifier.to_string()
    }
}

} // verus!
