//! What holds of inputs, names, rules and answers.

use vstd::prelude::*;
use vstd::seq_lib::lemma_seq_contains_after_push;

use crate::call_order::{call_location, call_lt, location_lt};
use crate::casing::ascii_lower;
use crate::commands::{
    ascii_lowered, first_line, is_refusal, is_yes, reports_error, ApplyError, Report,
};
use crate::framework::{combined_rule, first_bound, first_foreign, item_lines, labels_distinct};
use crate::input_kind::{
    file_is_plan, is_classified, mixed_message, path_lines, picked, ClassifiedInputs, IacFormat,
    InputFile, MixedInputsError,
};
use crate::language::{language_name, language_named, language_title, Language, SourceFile};
use crate::lints::{extract_positions, warned_items, ImplBlock, ImplItem};
use crate::lsp::{hover_text, piece_texts, HoverContents, MarkedString};
use crate::order::{distinct, views};
use crate::paths::{components_lt, path_components};
use crate::policy_checker::{ParsedStatement, StringOrVec};
use crate::sdk::{LocationView, SdkCallView};
use crate::service_configuration::{renamed, smithy_names, with_own_names};
use crate::text::{find_text_from, joined, lines_of, text_lt, texts, trimmed, without};
use crate::text_laws::{
    lines_end_at_line_breaks, removed_characters_are_gone, spaces_around_are_trimmed,
    texts_are_found_first,
};

verus! {

/// What stands for a list has every item of it, in its place.
pub proof fn lists_keep_their_items<T: View>(v: Seq<String>, w: Seq<T>, i: int)
    ensures
        texts(v).len() == v.len(),
        0 <= i < v.len() ==> texts(v)[i] == v[i]@,
        views(w).len() == w.len(),
        0 <= i < w.len() ==> views(w)[i] == w[i]@,
{
}

/// One text is a list of one, several are that list, and none is the empty one.
pub proof fn texts_of_statements(s: String, v: Vec<String>, i: int)
    ensures
        StringOrVec::Single(s)@ == seq![s@],
        StringOrVec::Multiple(v)@.len() == v@.len(),
        0 <= i < v@.len() ==> StringOrVec::Multiple(v)@[i] == v@[i]@,
        StringOrVec::Empty@.len() == 0,
{
}

/// A statement stands for its effect, its patterns, its resources and its conditions.
pub proof fn statements_keep_their_parts(s: ParsedStatement)
    ensures
        s@.effect == s.effect,
        s@.actions == texts(s.actions@),
        s@.resources == texts(s.resources@),
        s@.conditions == texts(s.conditions@),
{
}

/// Items stay in the order in which they occur first: what comes later adds behind.
pub proof fn first_occurrences_stay<A>(a: Seq<A>, b: Seq<A>)
    ensures
        distinct(a).len() <= distinct(a + b).len(),
        distinct(a + b).subrange(0, distinct(a).len() as int) == distinct(a),
        a.no_duplicates() ==> distinct(a) == a,
    decreases a.len() + b.len(),
{
    let n = distinct(a).len() as int;
    if b.len() == 0 {
        assert(a + b =~= a);
        assert(distinct(a).subrange(0, n) =~= distinct(a));
    } else {
        let t = b.drop_last();
        first_occurrences_stay(a, t);
        assert((a + b).drop_last() =~= a + t);
        assert(distinct(a + b).subrange(0, n) =~= distinct(a + t).subrange(0, n));
    }
    if a.no_duplicates() && a.len() > 0 {
        let t = a.drop_last();
        assert forall|i: int, j: int| 0 <= i < t.len() && 0 <= j < t.len() && i != j implies t[i]
            != t[j] by {
            assert(t[i] == a[i] && t[j] == a[j]);
        }
        first_occurrences_stay(t, Seq::empty());
        if t.contains(a.last()) {
            let k = choose|k: int| 0 <= k < t.len() && t[k] == a.last();
            assert(a[k] == a[a.len() - 1]);
        }
        assert(distinct(a) =~= a);
    }
}

/// A service has the name that the table gives it, or else its own.
pub proof fn services_are_renamed_by_the_table(m: Map<Seq<char>, String>, s: Seq<char>)
    ensures
        m.contains_key(s) ==> renamed(m, s) == m[s]@,
        !m.contains_key(s) ==> renamed(m, s) == s,
{
}

/// A package is found under each explicit name without its hyphens; of several the last counts.
pub proof fn last_explicit_name_counts(
    entries: Seq<(String, String)>,
    segment: Seq<char>,
    i: int,
)
    requires
        -1 <= i < entries.len(),
        forall|j: int|
            i < j < entries.len() ==> (#[trigger] entries[j]).0@.filter(|c: char| c != '-')
                != segment,
        i >= 0 ==> entries[i].0@.filter(|c: char| c != '-') == segment,
    ensures
        smithy_names(entries).contains_key(segment) == (i >= 0),
        i >= 0 ==> smithy_names(entries)[segment] == entries[i].1@,
    decreases entries.len(),
{
    if entries.len() > 0 {
        let last = entries[entries.len() - 1];
        removed_characters_are_gone(last.0@, '-');
        if i < entries.len() - 1 {
            let t = entries.drop_last();
            assert(last.0@.filter(|c: char| c != '-') != segment);
            assert forall|j: int| i < j < t.len() implies (#[trigger] t[j]).0@.filter(
                |c: char| c != '-',
            ) != segment by {
                assert(t[j] == entries[j]);
            }
            last_explicit_name_counts(t, segment, i);
        }
    }
}

/// A package without an explicit name is found under the hyphenated name that it is without the
/// hyphens; of several the last counts.
pub proof fn last_hyphenated_name_counts(
    m: Map<Seq<char>, Seq<char>>,
    names: Seq<Seq<char>>,
    segment: Seq<char>,
    i: int,
)
    requires
        !m.contains_key(segment),
        -1 <= i < names.len(),
        forall|j: int|
            i < j < names.len() ==> !((#[trigger] names[j]).contains('-') && names[j].filter(
                |c: char| c != '-',
            ) == segment),
        i >= 0 ==> names[i].contains('-') && names[i].filter(|c: char| c != '-') == segment,
    ensures
        with_own_names(m, names).contains_key(segment) == (i >= 0),
        i >= 0 ==> with_own_names(m, names)[segment] == names[i],
    decreases names.len(),
{
    if names.len() > 0 {
        let last = names[names.len() - 1];
        removed_characters_are_gone(last, '-');
        if i < names.len() - 1 {
            let t = names.drop_last();
            assert(!(last.contains('-') && last.filter(|c: char| c != '-') == segment));
            assert forall|j: int| i < j < t.len() implies !((#[trigger] t[j]).contains('-')
                && t[j].filter(|c: char| c != '-') == segment) by {
                assert(t[j] == names[j]);
            }
            last_hyphenated_name_counts(m, t, segment, i);
        }
    }
}

/// The lines of a rule are indented below a dash; blank ones are left out.
pub proof fn rules_are_indented(line: Seq<char>, rest: Seq<Seq<char>>, first: bool)
    ensures
        trimmed(line).len() > 0 ==> item_lines(seq![line] + rest, true) == "    - "@ + line + "\n"@
            + item_lines(rest, false) && item_lines(seq![line] + rest, false) == "      "@ + line
            + "\n"@ + item_lines(rest, false),
        trimmed(line).len() == 0 ==> item_lines(seq![line] + rest, first) == item_lines(rest, first),
        item_lines(Seq::empty(), first).len() == 0,
{
    let v = seq![line] + rest;
    assert(v.subrange(1, v.len() as int) =~= rest);
    assert(v[0] == line);
}

/// A combined rule has all rules, one behind the other.
pub proof fn rules_are_combined(
    id: Seq<char>,
    language: Seq<char>,
    bodies: Seq<Seq<char>>,
    body: Seq<char>,
)
    ensures
        combined_rule(id, language, bodies.push(body)) == combined_rule(id, language, bodies)
            + item_lines(lines_of(body), true),
        combined_rule(id, language, Seq::empty()) == "id: "@ + id + "\nlanguage: "@ + language
            + "\nrule:\n  any:\n"@,
{
    assert(bodies.push(body).drop_last() =~= bodies);
    assert(combined_rule(id, language, bodies.push(body)) =~= combined_rule(id, language, bodies)
        + item_lines(lines_of(body), true));
    assert(combined_rule(id, language, Seq::empty()) =~= "id: "@ + id + "\nlanguage: "@ + language
        + "\nrule:\n  any:\n"@);
}

/// A match goes to the first extractor whose label it binds, and the first file of another language
/// is found.
pub proof fn first_ones_are_found(
    labels: Seq<Seq<char>>,
    bound: Seq<Seq<char>>,
    files: Seq<SourceFile>,
    language: Language,
    i: int,
    k: int,
)
    requires
        0 <= i <= labels.len(),
        forall|j: int| 0 <= j < i ==> !bound.contains(#[trigger] labels[j]),
        i < labels.len() ==> bound.contains(labels[i]),
        0 <= k <= files.len(),
        forall|j: int| 0 <= j < k ==> (#[trigger] files[j]).language == language,
        k < files.len() ==> files[k].language != language,
    ensures
        first_bound(labels, bound) == i,
        first_foreign(files, language) == k,
{
    lemma_first_bound(labels, bound, i);
    lemma_first_foreign(files, language, k);
}

proof fn lemma_first_bound(labels: Seq<Seq<char>>, bound: Seq<Seq<char>>, i: int)
    requires
        0 <= i <= labels.len(),
        forall|j: int| 0 <= j < i ==> !bound.contains(#[trigger] labels[j]),
        i < labels.len() ==> bound.contains(labels[i]),
    ensures
        first_bound(labels, bound) == i,
    decreases labels.len(),
{
    if i > 0 {
        let t = labels.subrange(1, labels.len() as int);
        assert(!bound.contains(labels[0]));
        assert forall|j: int| 0 <= j < i - 1 implies !bound.contains(#[trigger] t[j]) by {
            assert(t[j] == labels[j + 1]);
        }
        lemma_first_bound(t, bound, i - 1);
    }
}

proof fn lemma_first_foreign(files: Seq<SourceFile>, language: Language, k: int)
    requires
        0 <= k <= files.len(),
        forall|j: int| 0 <= j < k ==> (#[trigger] files[j]).language == language,
        k < files.len() ==> files[k].language != language,
    ensures
        first_foreign(files, language) == k,
    decreases files.len(),
{
    if k > 0 {
        let t = files.subrange(1, files.len() as int);
        assert(files[0].language == language);
        assert forall|j: int| 0 <= j < k - 1 implies (#[trigger] t[j]).language == language by {
            assert(t[j] == files[j + 1]);
        }
        lemma_first_foreign(t, language, k - 1);
    }
}

/// Labels are distinct exactly if none occurs twice.
pub proof fn distinct_labels_occur_once(labels: Seq<Seq<char>>)
    ensures
        labels_distinct(labels) <==> labels.no_duplicates(),
{
    if labels_distinct(labels) {
        assert forall|i: int, j: int|
            0 <= i < labels.len() && 0 <= j < labels.len() && i != j implies labels[i]
            != labels[j] by {
            if i < j {
                assert(labels[i] != labels[j]);
            } else {
                assert(labels[j] != labels[i]);
            }
        }
    }
}

/// A path is picked exactly if its mark is the wanted one.
pub proof fn paths_are_picked_by_their_marks(
    paths: Seq<Seq<char>>,
    plans: Seq<bool>,
    wanted: bool,
    x: Seq<char>,
)
    requires
        paths.len() <= plans.len(),
    ensures
        picked(paths, plans, wanted).contains(x) <==> exists|i: int|
            0 <= i < paths.len() && #[trigger] paths[i] == x && plans[i] == wanted,
        picked(paths, plans, wanted).len() == 0 <==> forall|i: int|
            0 <= i < paths.len() ==> #[trigger] plans[i] != wanted,
        (forall|i: int| 0 <= i < paths.len() ==> #[trigger] plans[i] == wanted) ==> picked(
            paths,
            plans,
            wanted,
        ) == paths,
    decreases paths.len(),
{
    broadcast use lemma_seq_contains_after_push;

    if paths.len() > 0 {
        let t = paths.drop_last();
        let n = paths.len() - 1;
        paths_are_picked_by_their_marks(t, plans, wanted, x);
        assert(paths[n] == paths.last());
        assert forall|i: int| 0 <= i < t.len() implies t[i] == paths[i] by {}
        if picked(t, plans, wanted).contains(x) {
            let i = choose|i: int| 0 <= i < t.len() && #[trigger] t[i] == x && plans[i] == wanted;
            assert(paths[i] == x);
        }
        if picked(t, plans, wanted).len() > 0 {
            let i = choose|i: int| 0 <= i < t.len() && #[trigger] plans[i] == wanted;
            assert(plans[i] == wanted);
        }
        assert(plans[n] == wanted || plans[n] != wanted);
        assert(t.push(paths[n]) =~= paths);
    } else {
        assert(picked(paths, plans, wanted) =~= paths);
    }
}

/// Inputs that are all plans are plans, inputs none of which is one are sources, and others are
/// refused with both lists.
pub proof fn inputs_are_not_mixed(
    r: Result<ClassifiedInputs, MixedInputsError>,
    paths: Seq<Seq<char>>,
    plans: Seq<bool>,
)
    requires
        is_classified(r, paths, plans),
        paths.len() == plans.len(),
    ensures
        (forall|i: int| 0 <= i < plans.len() ==> !#[trigger] plans[i]) ==> (r matches Ok(
            ClassifiedInputs::Source(v),
        ) && texts(v@) == paths),
        paths.len() > 0 && (forall|i: int| 0 <= i < plans.len() ==> #[trigger] plans[i]) ==> (r
            matches Ok(ClassifiedInputs::Iac(f, v)) && f == IacFormat::TerraformPlan && texts(v@)
            == paths),
        (exists|i: int, j: int|
            0 <= i < plans.len() && 0 <= j < plans.len() && #[trigger] plans[i]
                && !#[trigger] plans[j]) ==> r is Err,
        r matches Err(e) ==> forall|i: int|
            0 <= i < paths.len() ==> if plans[i] {
                texts(e.plans@).contains(#[trigger] paths[i])
            } else {
                texts(e.sources@).contains(paths[i])
            },
{
    paths_are_picked_by_their_marks(paths, plans, true, Seq::empty());
    paths_are_picked_by_their_marks(paths, plans, false, Seq::empty());
    if paths.len() > 0 && (forall|i: int| 0 <= i < plans.len() ==> #[trigger] plans[i]) {
        assert(plans[0]);
    }
    assert forall|i: int| 0 <= i < paths.len() && r is Err implies if plans[i] {
        texts(r->Err_0.plans@).contains(#[trigger] paths[i])
    } else {
        texts(r->Err_0.sources@).contains(paths[i])
    } by {
        paths_are_picked_by_their_marks(paths, plans, true, paths[i]);
        paths_are_picked_by_their_marks(paths, plans, false, paths[i]);
    }
}

/// A file that cannot be read is no plan.
pub proof fn unreadable_files_are_no_plans(f: InputFile)
    ensures
        f.content is None ==> !file_is_plan(f),
        f.content matches Some(b) ==> file_is_plan(f) == crate::terraform::plan::is_plan(b@),
{
}

/// Paths are listed one by one, each on its line.
pub proof fn paths_are_listed_one_by_one(paths: Seq<Seq<char>>, p: Seq<char>)
    ensures
        path_lines(paths.push(p)) == path_lines(paths) + "    "@ + p + "\n"@,
        path_lines(Seq::empty()).len() == 0,
{
    assert(paths.push(p).drop_last() =~= paths);
}

/// Which names languages have.
pub proof fn languages_have_names(s: Seq<char>)
    ensures
        language_named("python"@) == Some(Language::Python),
        language_named("py"@) == Some(Language::Python),
        language_named("javascript"@) == Some(Language::JavaScript),
        language_named("js"@) == Some(Language::JavaScript),
        language_named("typescript"@) == Some(Language::TypeScript),
        language_named("ts"@) == Some(Language::TypeScript),
        language_named("go"@) == Some(Language::Go),
        language_named("java"@) == Some(Language::Java),
        s != "python"@ && s != "py"@ && s != "javascript"@ && s != "js"@ && s != "typescript"@ && s
            != "ts"@ && s != "go"@ && s != "java"@ ==> language_named(s) is None,
{
    reveal_strlit("python");
    reveal_strlit("py");
    reveal_strlit("javascript");
    reveal_strlit("js");
    reveal_strlit("typescript");
    reveal_strlit("ts");
    reveal_strlit("go");
    reveal_strlit("java");
    assert("python"@.len() == 6 && "py"@.len() == 2 && "javascript"@.len() == 10);
    assert("js"@.len() == 2 && "typescript"@.len() == 10 && "ts"@.len() == 2);
    assert("go"@.len() == 2 && "java"@.len() == 4);
    assert("py"@[0] == 'p' && "js"@[0] == 'j' && "ts"@[0] == 't' && "go"@[0] == 'g');
    assert("javascript"@[0] == 'j' && "typescript"@[0] == 't');
}

/// The functions named `extract` of an impl of the trait are warned of, and nothing else is.
pub proof fn extract_functions_are_warned_of(block: ImplBlock, path: Vec<String>, i: int)
    ensures
        block.of_trait == Some(path) && path@.len() > 0 && path@.last()@ == "LanguageExtractor"@
            ==> (warned_items(block).contains(i) <==> 0 <= i < block.items@.len()
            && block.items@[i].is_fn && block.items@[i].name@ == "extract"@),
        block.of_trait == Some(path) && (path@.len() == 0 || path@.last()@
            != "LanguageExtractor"@) ==> warned_items(block).len() == 0,
        block.of_trait is None ==> warned_items(block).len() == 0,
{
    lemma_extracts(block.items@, i);
    if path@.len() > 0 {
        assert(texts(path@).last() == path@.last()@);
    }
}

proof fn lemma_extracts(items: Seq<ImplItem>, i: int)
    ensures
        extract_positions(items).contains(i) <==> 0 <= i < items.len() && items[i].is_fn
            && items[i].name@ == "extract"@,
    decreases items.len(),
{
    broadcast use lemma_seq_contains_after_push;

    if items.len() > 0 {
        let t = items.drop_last();
        lemma_extracts(t, i);
        assert(items[items.len() - 1] == items.last());
        if 0 <= i < t.len() {
            assert(t[i] == items[i]);
        }
    }
}

/// An answer is given in the first line.
pub proof fn first_lines_answer(a: Seq<char>, rest: Seq<char>)
    requires
        !a.contains('\n'),
        a.len() > 0,
        a.last() != '\r',
    ensures
        is_yes(a + seq!['\n'] + rest) == is_yes(a),
{
    lines_end_at_line_breaks(a, rest);
}

/// An answer agrees exactly if it is `y` or `yes`, in capitals or not, with spaces around it or not.
pub proof fn yes_is_y_or_yes(a: Seq<char>, w: Seq<char>, b: Seq<char>)
    requires
        !a.contains('\n') && !w.contains('\n') && !b.contains('\n'),
        forall|i: int| 0 <= i < a.len() ==> crate::text::is_space(#[trigger] a[i]),
        forall|i: int| 0 <= i < b.len() ==> crate::text::is_space(#[trigger] b[i]),
        w.len() > 0,
        !crate::text::is_space(w[0]),
        !crate::text::is_space(w.last()),
    ensures
        is_yes(a + w + b) <==> (w.len() == 1 && (w[0] == 'y' || w[0] == 'Y')) || (w.len() == 3 && (
        w[0] == 'y' || w[0] == 'Y') && (w[1] == 'e' || w[1] == 'E') && (w[2] == 's' || w[2] == 'S')),
{
    reveal_strlit("y");
    reveal_strlit("yes");
    let s = a + w + b;
    if s.contains('\n') {
        let k = choose|k: int| 0 <= k < s.len() && s[k] == '\n';
        if k < a.len() {
            assert(a[k] == '\n');
        } else if k < a.len() + w.len() {
            assert(w[k - a.len()] == '\n');
        } else {
            assert(b[k - a.len() - w.len()] == '\n');
        }
    }
    lines_end_at_line_breaks(s, Seq::empty());
    assert(first_line(s) == s);
    spaces_around_are_trimmed(a, w, b);
    let l = ascii_lowered(w);
    assert(l.len() == w.len());
    assert forall|i: int| 0 <= i < w.len() implies l[i] == ascii_lower(w[i]) by {}
    lemma_lower(w[0], 'y', 'Y');
    if l == "y"@ {
        assert(l[0] == 'y');
    }
    if w.len() == 1 && (w[0] == 'y' || w[0] == 'Y') {
        assert(l =~= "y"@);
    }
    if w.len() == 3 {
        lemma_lower(w[1], 'e', 'E');
        lemma_lower(w[2], 's', 'S');
        if l == "yes"@ {
            assert(l[0] == 'y' && l[1] == 'e' && l[2] == 's');
        }
        if (w[0] == 'y' || w[0] == 'Y') && (w[1] == 'e' || w[1] == 'E') && (w[2] == 's' || w[2]
            == 'S') {
            assert(l =~= "yes"@);
        }
    }
    assert("y"@.len() == 1 && "yes"@.len() == 3);
}

proof fn lemma_lower(c: char, small: char, capital: char)
    requires
        'a' <= small <= 'z',
        capital as u32 + 32 == small as u32,
    ensures
        ascii_lower(c) == small <==> c == small || c == capital,
{
    assert('A' as u32 == 65 && 'Z' as u32 == 90 && 'a' as u32 == 97 && 'z' as u32 == 122);
    if 'A' <= c && c <= 'Z' {
        assert(65 <= c as u32 <= 90);
        assert(ascii_lower(c) as u32 == c as u32 + 32);
    }
}

/// An error that names a missing entity, wherever it does, is one of the principal; other errors are
/// reported as they are.
pub proof fn missing_principals_are_reported(r: Report, m: String, a: Seq<char>, b: Seq<char>)
    ensures
        m@ == a + "NoSuchEntity"@ + b ==> (reports_error(r, ApplyError::Aws(m)) == is_refusal(
            r,
            "principal_not_found"@,
            "the IAM principal no longer exists or is not visible"@,
        )),
        (forall|x: Seq<char>, y: Seq<char>| m@ != #[trigger] (x + "NoSuchEntity"@ + y)) ==> (
        reports_error(r, ApplyError::Aws(m)) == is_refusal(r, "mutation_error"@, m@)),
{
    let p = "NoSuchEntity"@;
    let s = m@;
    texts_are_found_first(s, p, 0);
    if s == a + p + b {
        assert(s.subrange(a.len() as int, a.len() as int + p.len()) =~= p);
    }
    if let Some(i) = find_text_from(s, p, 0) {
        let x = s.subrange(0, i);
        let y = s.subrange(i + p.len(), s.len() as int);
        assert(s =~= x + s.subrange(i, i + p.len()) + y);
        assert(s == x + p + y);
    }
}

/// The pieces of a hover text that are not empty are kept, in their order, each on its line.
pub proof fn pieces_of_hover_texts_are_kept(v: Seq<MarkedString>, m: MarkedString)
    ensures
        m.text().len() > 0 ==> piece_texts(v.push(m)) == piece_texts(v).push(m.text()),
        m.text().len() == 0 ==> piece_texts(v.push(m)) == piece_texts(v),
        piece_texts(Seq::empty()).len() == 0,
        m matches MarkedString::Plain(s) ==> m.text() == s@,
        m matches MarkedString::LanguageString { language, value } ==> m.text() == value@,
{
    assert(v.push(m).drop_last() =~= v);
}

/// A hover has a text exactly if one of its pieces is not empty.
pub proof fn hovers_have_texts(c: HoverContents, m: MarkedString, s: String, v: Vec<MarkedString>)
    ensures
        c == HoverContents::Scalar(m) ==> hover_text(c) == (if m.text().len() == 0 {
            None::<Seq<char>>
        } else {
            Some(m.text())
        }),
        c == HoverContents::Markup(s) ==> hover_text(c) == (if s@.len() == 0 {
            None::<Seq<char>>
        } else {
            Some(s@)
        }),
        c == HoverContents::Array(v) ==> hover_text(c) == (if piece_texts(v@).len() == 0 {
            None::<Seq<char>>
        } else {
            Some(joined(piece_texts(v@), "\n"@))
        }),
{
}

/// Calls are ordered by name; of calls of one name those without a place come first, and the others
/// by file, start and end.
pub proof fn calls_are_ordered_by_name_and_place(
    a: SdkCallView,
    b: SdkCallView,
    x: LocationView,
    y: LocationView,
)
    ensures
        a.name != b.name ==> call_lt(a, b) == text_lt(a.name, b.name),
        a.name == b.name && a.metadata is None ==> call_lt(a, b) == b.metadata is Some,
        a.name == b.name && b.metadata is None ==> !call_lt(a, b),
        a.name == b.name && call_location(a) == Some(x) && call_location(b) == Some(y) ==> call_lt(
            a,
            b,
        ) == location_lt(x, y),
        path_components(x.file_path) != path_components(y.file_path) ==> location_lt(x, y)
            == components_lt(path_components(x.file_path), path_components(y.file_path)),
        path_components(x.file_path) == path_components(y.file_path) && x.start_position
            != y.start_position ==> location_lt(x, y) == (x.start_position.0 < y.start_position.0 || (
        x.start_position.0 == y.start_position.0 && x.start_position.1 < y.start_position.1)),
        path_components(x.file_path) == path_components(y.file_path) && x.start_position
            == y.start_position ==> location_lt(x, y) == (x.end_position.0 < y.end_position.0 || (
        x.end_position.0 == y.end_position.0 && x.end_position.1 < y.end_position.1)),
{
    crate::text::lemma_text_lt_irreflexive(a.name);
    let p = path_components(x.file_path);
    crate::path_laws::paths_are_compared_at_the_first_difference(p, p, p.len() as int);
}

/// A refusal of mixed inputs lists the plans and the other inputs.
pub proof fn refusals_list_both_kinds(plans: Seq<Seq<char>>, sources: Seq<Seq<char>>)
    ensures
        exists|head: Seq<char>|
            mixed_message(plans, sources) == #[trigger] (head + ("  Terraform plans:\n"@
                + path_lines(plans) + "  Other inputs:\n"@ + path_lines(sources))),
{
    let head =
        "Cannot mix a Terraform plan with other inputs in one run.\nPass either one or more `terraform show -json` plans, or application source files of a single language — not both.\n"@;
    assert(mixed_message(plans, sources) =~= head + ("  Terraform plans:\n"@ + path_lines(plans)
        + "  Other inputs:\n"@ + path_lines(sources)));
}

/// Languages are called by their names.
pub proof fn languages_are_called_by_name()
    ensures
        language_name(Language::Python) == "python"@,
        language_name(Language::JavaScript) == "javascript"@,
        language_name(Language::TypeScript) == "typescript"@,
        language_name(Language::Go) == "go"@,
        language_name(Language::Java) == "java"@,
        language_title(Language::Python) == "Python"@,
        language_title(Language::JavaScript) == "JavaScript"@,
        language_title(Language::TypeScript) == "TypeScript"@,
        language_title(Language::Go) == "Go"@,
        language_title(Language::Java) == "Java"@,
{
}

} // verus!
