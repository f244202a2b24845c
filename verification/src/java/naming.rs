//! The names that AWS SDK for Java v2 gives to service clients.

use regex::Regex;
use vstd::prelude::*;

use crate::casing::{
    all_ascii, ascii_lower, ascii_upper, is_ascii_alphanumeric, is_ascii_lower, is_ascii_upper,
    lower_case, to_lower_case, to_upper_case_char, upper_case_char,
};
use crate::text::{
    chars_of, split, split_on, text_between, text_of, texts, trim, trimmed, without,
};

verus! {

pub const NOT_ALPHANUMERIC: &'static str = "[^A-Za-z0-9]+";

pub const LOWER_VERSION: &'static str = "([^a-z]{2,})v([0-9]+)";

pub const UPPER_VERSION: &'static str = "([^A-Z]{2,})V([0-9]+)";

pub const ACRONYM: &'static str = "([A-Z]+)([A-Z][a-z])";

pub const DIGIT_LETTER: &'static str = "([0-9])([a-zA-Z])";

pub const SPACES: &'static str = " +";

/// The regular expressions by which a name is cut into words. All of them are valid.
pub open spec fn is_word_pattern(p: Seq<char>) -> bool {
    ||| p == NOT_ALPHANUMERIC@
    ||| p == LOWER_VERSION@
    ||| p == UPPER_VERSION@
    ||| p == ACRONYM@
    ||| p == DIGIT_LETTER@
    ||| p == SPACES@
}

/// What regex makes of a text when it replaces all matches of a pattern.
pub uninterp spec fn regex_replaced(
    pattern: Seq<char>,
    text: Seq<char>,
    replacement: Seq<char>,
) -> Seq<char>;

/// `Regex::new` and `Regex::replace_all` of regex: all matches of the pattern, from left to right
/// without overlap, are replaced; `$1` and `$2` in the replacement stand for the groups. The
/// result depends on the three texts alone. An invalid pattern would make it panic.
#[verifier::external_body]
fn replace_all(pattern: &str, text: &str, replacement: &str) -> (r: String)
    requires
        is_word_pattern(pattern@),
    ensures
        r@ == regex_replaced(pattern@, text@, replacement@),
{
    Regex::new(pattern).expect("valid pattern").replace_all(text, replacement).into_owned()
}

/// Whether a word ends at the lower case letter `i`: an upper case letter follows, and a letter or
/// a digit behind it.
pub open spec fn ends_word(s: Seq<char>, i: int) -> bool {
    &&& is_ascii_lower(s[i])
    &&& i + 2 < s.len()
    &&& is_ascii_upper(s[i + 1])
    &&& is_ascii_alphanumeric(s[i + 2])
}

/// The first `n` characters of `s`, with a space behind each at which a word ends.
pub open spec fn camel_spaced(s: Seq<char>, n: int) -> Seq<char>
    decreases n,
{
    if n <= 0 {
        Seq::empty()
    } else if ends_word(s, n - 1) {
        camel_spaced(s, n - 1).push(s[n - 1]).push(' ')
    } else {
        camel_spaced(s, n - 1).push(s[n - 1])
    }
}

/// A name with its words separated by single spaces.
pub open spec fn words_spaced(name: Seq<char>) -> Seq<char> {
    let a = regex_replaced(NOT_ALPHANUMERIC@, name, " "@);
    let b = regex_replaced(LOWER_VERSION@, a, "$1 v$2 "@);
    let c = regex_replaced(UPPER_VERSION@, b, "$1 V$2 "@);
    let d = camel_spaced(c, c.len() as int);
    let e = regex_replaced(ACRONYM@, d, "$1 $2"@);
    let f = regex_replaced(DIGIT_LETTER@, e, "$1 $2"@);
    let g = regex_replaced(SPACES@, f, " "@);
    trimmed(g)
}

/// The words of a name.
pub open spec fn words_of(name: Seq<char>) -> Seq<Seq<char>> {
    split_on(words_spaced(name), ' ')
}

/// A word in lower case with a capital at its start.
pub open spec fn capitalized(word: Seq<char>) -> Seq<char> {
    let lower = lower_case(word);
    if lower.len() == 0 {
        lower
    } else {
        upper_case_char(lower[0]) + lower.subrange(1, lower.len() as int)
    }
}

pub open spec fn all_capitalized(words: Seq<Seq<char>>) -> Seq<char>
    decreases words.len(),
{
    if words.len() == 0 {
        Seq::empty()
    } else {
        all_capitalized(words.drop_last()) + capitalized(words.last())
    }
}

/// A word of ASCII characters in lower case with a capital at its start.
pub open spec fn ascii_capitalized(word: Seq<char>) -> Seq<char> {
    let lower = word.map_values(|c: char| ascii_lower(c));
    if lower.len() == 0 {
        lower
    } else {
        seq![ascii_upper(lower[0])] + lower.subrange(1, lower.len() as int)
    }
}

pub open spec fn all_ascii_capitalized(words: Seq<Seq<char>>) -> Seq<char>
    decreases words.len(),
{
    if words.len() == 0 {
        Seq::empty()
    } else {
        all_ascii_capitalized(words.drop_last()) + ascii_capitalized(words.last())
    }
}

/// A name in Pascal case.
pub open spec fn pascal(name: Seq<char>) -> Seq<char> {
    all_capitalized(words_of(name))
}

/// Whether two texts differ at most in the case of ASCII letters.
pub open spec fn same_but_case(a: Seq<char>, b: Seq<char>) -> bool {
    a.len() == b.len() && forall|i: int|
        0 <= i < a.len() ==> ascii_lower(#[trigger] a[i]) == ascii_lower(b[i])
}

/// `s` without the prefix, whatever its case.
pub open spec fn without_leading(s: Seq<char>, prefix: Seq<char>) -> Seq<char> {
    if prefix.len() <= s.len() && same_but_case(s.subrange(0, prefix.len() as int), prefix) {
        s.subrange(prefix.len() as int, s.len() as int)
    } else {
        s
    }
}

/// `s` without the suffix, whatever its case.
pub open spec fn without_trailing(s: Seq<char>, suffix: Seq<char>) -> Seq<char> {
    if suffix.len() <= s.len() && same_but_case(
        s.subrange(s.len() - suffix.len(), s.len() as int),
        suffix,
    ) {
        s.subrange(0, s.len() - suffix.len())
    } else {
        s
    }
}

/// A name without `Amazon` and `AWS` before and `Service` behind it.
pub open spec fn without_redundancy(name: Seq<char>) -> Seq<char> {
    without_trailing(without_leading(without_leading(name, "amazon"@), "aws"@), "service"@)
}

/// The name of a service in the names of its classes.
pub open spec fn service_class_name(service_id: Seq<char>) -> Seq<char> {
    without_redundancy(pascal(service_id))
}

fn ascii_lower_case(c: char) -> (r: bool)
    ensures
        r == is_ascii_lower(c),
{
    c >= 'a' && c <= 'z'
}

fn ascii_upper_case(c: char) -> (r: bool)
    ensures
        r == is_ascii_upper(c),
{
    c >= 'A' && c <= 'Z'
}

fn ascii_alphanumeric(c: char) -> (r: bool)
    ensures
        r == is_ascii_alphanumeric(c),
{
    ascii_lower_case(c) || ascii_upper_case(c) || (c >= '0' && c <= '9')
}

/// Puts a space behind each lower case letter that an upper case letter follows, if a letter or a
/// digit follows that.
pub fn split_camel_case(s: &str) -> (r: String)
    ensures
        r@ == camel_spaced(s@, s@.len() as int),
{
    let v = chars_of(s);
    let mut out = String::new();
    let mut i: usize = 0;
    while i < v.len()
        invariant
            i <= v@.len(),
            out@ == camel_spaced(v@, i as int),
        decreases v@.len() - i,
    {
        out.push(v[i]);
        if ascii_lower_case(v[i]) && v.len() - i > 2 && ascii_upper_case(v[i + 1])
            && ascii_alphanumeric(v[i + 2]) {
            out.push(' ');
        }
        i = i + 1;
    }
    out
}

proof fn lemma_spaces_only(s: Seq<char>, n: int)
    requires
        0 <= n <= s.len(),
    ensures
        without(camel_spaced(s, n), ' ') == without(s.subrange(0, n), ' '),
    decreases n,
{
    if n == 0 {
        assert(s.subrange(0, 0) =~= camel_spaced(s, 0));
    } else {
        lemma_spaces_only(s, n - 1);
        let before = camel_spaced(s, n - 1);
        let one = before.push(s[n - 1]);
        assert(one.drop_last() =~= before);
        assert(one.push(' ').drop_last() =~= one);
        assert(without(one.push(' '), ' ') == without(one, ' '));
        assert(s.subrange(0, n).drop_last() =~= s.subrange(0, n - 1));
        assert(without(one, ' ') == without(s.subrange(0, n), ' '));
    }
}

/// Splitting a name at its capitals only puts spaces into it.
pub proof fn splitting_only_adds_spaces(s: Seq<char>)
    ensures
        without(camel_spaced(s, s.len() as int), ' ') == without(s, ' '),
{
    lemma_spaces_only(s, s.len() as int);
    assert(s.subrange(0, s.len() as int) =~= s);
}

/// The words of a name.
pub fn split_on_word_boundaries(name: &str) -> (r: Vec<String>)
    ensures
        texts(r@) == words_of(name@),
{
    let s = replace_all(NOT_ALPHANUMERIC, name, " ");
    let s = replace_all(LOWER_VERSION, s.as_str(), "$1 v$2 ");
    let s = replace_all(UPPER_VERSION, s.as_str(), "$1 V$2 ");
    let s = split_camel_case(s.as_str());
    let s = replace_all(ACRONYM, s.as_str(), "$1 $2");
    let s = replace_all(DIGIT_LETTER, s.as_str(), "$1 $2");
    let s = replace_all(SPACES, s.as_str(), " ");
    let s = trim(s.as_str());
    split(s.as_str(), ' ')
}

fn capitalize(word: &str) -> (r: String)
    ensures
        r@ == capitalized(word@),
        all_ascii(word@) ==> r@ == ascii_capitalized(word@),
{
    let lower = to_lower_case(word);
    let v = chars_of(lower.as_str());
    if v.len() == 0 {
        return lower;
    }
    let mut r = to_upper_case_char(v[0]);
    let rest = text_between(&v, 1, v.len());
    r.append(rest.as_str());
    r
}

/// The words, each with a capital at its start, one behind the other.
pub fn capitalize_all(words: &Vec<String>) -> (r: String)
    ensures
        r@ == all_capitalized(texts(words@)),
        (forall|i: int| 0 <= i < words@.len() ==> all_ascii((#[trigger] words@[i])@)) ==> r@
            == all_ascii_capitalized(texts(words@)),
{
    let mut out = String::new();
    let ghost s = texts(words@);
    let mut i: usize = 0;
    assert(s.subrange(0, 0).len() == 0);
    while i < words.len()
        invariant
            i <= words@.len(),
            s == texts(words@),
            out@ == all_capitalized(s.subrange(0, i as int)),
            (forall|j: int| 0 <= j < words@.len() ==> all_ascii((#[trigger] words@[j])@)) ==> out@
                == all_ascii_capitalized(s.subrange(0, i as int)),
        decreases words@.len() - i,
    {
        let ghost u = s.subrange(0, i + 1);
        assert(u.drop_last() =~= s.subrange(0, i as int));
        assert(u.last() == words@[i as int]@);
        let word = capitalize(words[i].as_str());
        out.append(word.as_str());
        i = i + 1;
    }
    assert(s.subrange(0, s.len() as int) =~= s);
    out
}

/// A name in Pascal case.
pub fn pascal_case(name: &str) -> (r: String)
    ensures
        r@ == pascal(name@),
{
    let words = split_on_word_boundaries(name);
    capitalize_all(&words)
}

fn lower_ascii(c: char) -> (r: u32)
    ensures
        r == ascii_lower(c) as u32,
{
    let n: u32 = c as u32;
    if c >= 'A' && c <= 'Z' {
        n + 32
    } else {
        n
    }
}

fn matches_but_case(v: &Vec<char>, from: usize, p: &Vec<char>) -> (r: bool)
    requires
        from + p.len() <= v.len(),
    ensures
        r == same_but_case(v@.subrange(from as int, from + p@.len()), p@),
{
    let ghost part = v@.subrange(from as int, from + p@.len());
    let mut i: usize = 0;
    while i < p.len()
        invariant
            i <= p@.len(),
            from + p.len() <= v.len(),
            part == v@.subrange(from as int, from + p@.len()),
            forall|j: int| 0 <= j < i ==> ascii_lower(#[trigger] part[j]) == ascii_lower(p@[j]),
        decreases p@.len() - i,
    {
        assert(part[i as int] == v@[from + i]);
        if lower_ascii(v[from + i]) != lower_ascii(p[i]) {
            return false;
        }
        proof {
            lemma_same_code(ascii_lower(v@[from + i]), ascii_lower(p@[i as int]));
        }
        i = i + 1;
    }
    true
}

proof fn lemma_same_code(a: char, b: char)
    requires
        a as u32 == b as u32,
    ensures
        a == b,
{
}

/// `s` without the prefix, whatever its case.
pub fn remove_leading_ci(s: &str, prefix: &str) -> (r: String)
    ensures
        r@ == without_leading(s@, prefix@),
{
    let v = chars_of(s);
    let p = chars_of(prefix);
    if p.len() <= v.len() && matches_but_case(&v, 0, &p) {
        text_between(&v, p.len(), v.len())
    } else {
        text_of(&v)
    }
}

/// `s` without the suffix, whatever its case.
pub fn remove_trailing_ci(s: &str, suffix: &str) -> (r: String)
    ensures
        r@ == without_trailing(s@, suffix@),
{
    let v = chars_of(s);
    let p = chars_of(suffix);
    if p.len() <= v.len() && matches_but_case(&v, v.len() - p.len(), &p) {
        text_between(&v, 0, v.len() - p.len())
    } else {
        text_of(&v)
    }
}

/// A name without `Amazon` and `AWS` before and `Service` behind it.
pub fn remove_redundant_prefixes_and_suffixes(name: &str) -> (r: String)
    ensures
        r@ == without_redundancy(name@),
{
    let s = remove_leading_ci(name, "amazon");
    let s = remove_leading_ci(s.as_str(), "aws");
    remove_trailing_ci(s.as_str(), "service")
}

/// The name of a service in the names of its classes, such as `DynamoDb` for `DynamoDB`.
pub fn java_service_name(service_id: &str) -> (r: String)
    ensures
        r@ == service_class_name(service_id@),
{
    let name = pascal_case(service_id);
    remove_redundant_prefixes_and_suffixes(name.as_str())
}

} // verus!
