//! Extractors that share one scan of a syntax tree.
//!
//! Each extractor has a rule and a label that only its rule binds. One combined rule finds the
//! nodes of all of them; the label that a match binds tells which extractor it is for.

use vstd::prelude::*;

use crate::errors::ExtractorError;
use crate::language::{language_name, language_title, Language, SourceFile};
use crate::text::{concat, contains_text, lines, lines_of, same, texts, trim, trimmed};

verus! {

/// Two extractors share this label.
#[derive(Debug, PartialEq, Eq)]
pub struct DuplicateDiscriminatorError {
    pub label: String,
}

impl DuplicateDiscriminatorError {
    /// The text that tells a reader what went wrong.
    pub fn describe(&self) -> (r: String)
        ensures
            r@ == "duplicate discriminator label '"@ + self.label@ + "' in extractor set"@,
    {
        let mut r = concat("duplicate discriminator label '", self.label.as_str());
        r.append("' in extractor set");
        r
    }
}

/// Whether the label at `i` occurs before.
pub open spec fn repeats(labels: Seq<Seq<char>>, i: int) -> bool {
    exists|j: int| 0 <= j < i && #[trigger] labels[j] == labels[i]
}

/// The labels are all different.
pub open spec fn labels_distinct(labels: Seq<Seq<char>>) -> bool {
    forall|i: int, j: int|
        0 <= j < i < labels.len() ==> #[trigger] labels[j] != #[trigger] labels[i]
}

/// Checks that the labels are all different. The error names the first label that occurs before.
pub fn check_labels(labels: &Vec<String>) -> (r: Result<(), DuplicateDiscriminatorError>)
    ensures
        match r {
            Ok(()) => labels_distinct(texts(labels@)),
            Err(e) => exists|i: int|
                0 <= i < labels@.len() && e.label@ == #[trigger] texts(labels@)[i] && repeats(
                    texts(labels@),
                    i,
                ) && labels_distinct(texts(labels@).subrange(0, i)),
        },
{
    let ghost s = texts(labels@);
    let mut i: usize = 0;
    while i < labels.len()
        invariant
            i <= labels@.len(),
            s == texts(labels@),
            forall|a: int, b: int| 0 <= b < a < i ==> #[trigger] s[b] != #[trigger] s[a],
        decreases labels@.len() - i,
    {
        let mut j: usize = 0;
        while j < i
            invariant
                j <= i < labels@.len(),
                s == texts(labels@),
                forall|a: int, b: int| 0 <= b < a < i ==> #[trigger] s[b] != #[trigger] s[a],
                forall|b: int| 0 <= b < j ==> #[trigger] s[b] != s[i as int],
            decreases i - j,
        {
            if same(labels[j].as_str(), labels[i].as_str()) {
                proof {
                    assert(s[j as int] == s[i as int]);
                    assert(repeats(s, i as int));
                    let t = s.subrange(0, i as int);
                    assert forall|a: int, b: int| 0 <= b < a < t.len() implies #[trigger] t[b]
                        != #[trigger] t[a] by {
                        assert(s[b] != s[a]);
                    }
                }
                return Err(DuplicateDiscriminatorError { label: labels[i].clone() });
            }
            j = j + 1;
        }
        i = i + 1;
    }
    Ok(())
}

/// The lines of a rule as an item of a list: the first has the dash, the others are indented under
/// it. Blank lines are left out.
pub open spec fn item_lines(ls: Seq<Seq<char>>, first: bool) -> Seq<char>
    decreases ls.len(),
{
    if ls.len() == 0 {
        Seq::empty()
    } else {
        let rest = ls.subrange(1, ls.len() as int);
        if trimmed(ls[0]).len() == 0 {
            item_lines(rest, first)
        } else {
            (if first {
                "    - "@
            } else {
                "      "@
            }) + ls[0] + "\n"@ + item_lines(rest, false)
        }
    }
}

/// The rules as items of a list.
pub open spec fn rule_items(bodies: Seq<Seq<char>>) -> Seq<char>
    decreases bodies.len(),
{
    if bodies.len() == 0 {
        Seq::empty()
    } else {
        rule_items(bodies.drop_last()) + item_lines(lines_of(bodies.last()), true)
    }
}

/// The rule that matches what any of the given rules matches.
pub open spec fn combined_rule(
    id: Seq<char>,
    language: Seq<char>,
    bodies: Seq<Seq<char>>,
) -> Seq<char> {
    "id: "@ + id + "\nlanguage: "@ + language + "\nrule:\n  any:\n"@ + rule_items(bodies)
}

fn append_item(yaml: &mut String, body: &str)
    ensures
        final(yaml)@ == old(yaml)@ + item_lines(lines_of(body@), true),
{
    let ls = lines(body);
    let ghost s = texts(ls@);
    let ghost start = yaml@;
    let ghost whole = item_lines(s, true);
    let mut first: bool = true;
    let mut i: usize = 0;
    assert(s.subrange(0, s.len() as int) == s);
    assert(start + whole == yaml@ + item_lines(s, true));
    while i < ls.len()
        invariant
            i <= ls@.len(),
            s == texts(ls@),
            start + whole == yaml@ + item_lines(s.subrange(i as int, s.len() as int), first),
        decreases ls@.len() - i,
    {
        let ghost rest = s.subrange(i as int, s.len() as int);
        let ghost next = s.subrange(i + 1, s.len() as int);
        proof {
            assert(rest[0] == s[i as int]);
            assert(rest.subrange(1, rest.len() as int) == next);
        }
        let line = ls[i].as_str();
        if !trim(line).as_str().is_empty() {
            let ghost before = yaml@;
            if first {
                yaml.append("    - ");
            } else {
                yaml.append("      ");
            }
            yaml.append(line);
            yaml.append("\n");
            proof {
                let head = if first {
                    "    - "@
                } else {
                    "      "@
                };
                assert(yaml@ == before + head + line@ + "\n"@);
                assert(before + (head + line@ + "\n"@ + item_lines(next, false)) =~= before + head
                    + line@ + "\n"@ + item_lines(next, false));
            }
            first = false;
        }
        i = i + 1;
    }
    assert(s.subrange(i as int, s.len() as int).len() == 0);
    assert(yaml@ + item_lines(s.subrange(i as int, s.len() as int), first) =~= yaml@);
}

/// The rule that matches what any of the given rules matches.
pub fn build_combined_rule(id: &str, language: &str, bodies: &Vec<String>) -> (r: String)
    ensures
        r@ == combined_rule(id@, language@, texts(bodies@)),
{
    let mut yaml = String::new();
    yaml.append("id: ");
    yaml.append(id);
    yaml.append("\nlanguage: ");
    yaml.append(language);
    yaml.append("\nrule:\n  any:\n");
    let ghost head = "id: "@ + id@ + "\nlanguage: "@ + language@ + "\nrule:\n  any:\n"@;
    let ghost s = texts(bodies@);
    let mut i: usize = 0;
    assert(yaml@ =~= head);
    assert(s.subrange(0, 0).len() == 0);
    assert(head + rule_items(s.subrange(0, 0)) =~= head);
    while i < bodies.len()
        invariant
            i <= bodies@.len(),
            s == texts(bodies@),
            yaml@ == head + rule_items(s.subrange(0, i as int)),
        decreases bodies@.len() - i,
    {
        let ghost u = s.subrange(0, i + 1);
        proof {
            assert(u.drop_last() == s.subrange(0, i as int));
            assert(u.last() == s[i as int]);
            assert(head + (rule_items(u.drop_last()) + item_lines(lines_of(u.last()), true)) =~= (
            head + rule_items(u.drop_last())) + item_lines(lines_of(u.last()), true));
        }
        append_item(&mut yaml, bodies[i].as_str());
        i = i + 1;
    }
    assert(s.subrange(0, s.len() as int) == s);
    yaml
}

/// An extractor: the label that its rule binds, and the rule.
#[derive(Debug, PartialEq, Eq)]
pub struct ExtractorRule {
    pub label: String,
    pub rule: String,
}

pub open spec fn labels_of(v: Seq<ExtractorRule>) -> Seq<Seq<char>> {
    v.map_values(|e: ExtractorRule| e.label@)
}

pub open spec fn rules_of(v: Seq<ExtractorRule>) -> Seq<Seq<char>> {
    v.map_values(|e: ExtractorRule| e.rule@)
}

/// The extractors of a language. No two of them have the same label.
#[derive(Debug)]
pub struct LanguageExtractorSet {
    language: Language,
    extractors: Vec<ExtractorRule>,
}

/// The first extractor whose label is bound; the number of extractors if there is none.
pub open spec fn first_bound(labels: Seq<Seq<char>>, bound: Seq<Seq<char>>) -> int
    decreases labels.len(),
{
    if labels.len() == 0 || bound.contains(labels[0]) {
        0
    } else {
        1 + first_bound(labels.subrange(1, labels.len() as int), bound)
    }
}

/// The first file that is not in the language; the number of files if there is none.
pub open spec fn first_foreign(files: Seq<SourceFile>, language: Language) -> int
    decreases files.len(),
{
    if files.len() == 0 || files[0].language != language {
        0
    } else {
        1 + first_foreign(files.subrange(1, files.len() as int), language)
    }
}

fn field_texts(v: &Vec<ExtractorRule>) -> (r: (Vec<String>, Vec<String>))
    ensures
        texts(r.0@) == labels_of(v@),
        texts(r.1@) == rules_of(v@),
{
    let ghost s = v@;
    let mut labels: Vec<String> = Vec::new();
    let mut rules: Vec<String> = Vec::new();
    let mut i: usize = 0;
    assert(texts(labels@) =~= labels_of(s.subrange(0, 0)));
    assert(texts(rules@) =~= rules_of(s.subrange(0, 0)));
    while i < v.len()
        invariant
            i <= v@.len(),
            s == v@,
            texts(labels@) == labels_of(s.subrange(0, i as int)),
            texts(rules@) == rules_of(s.subrange(0, i as int)),
        decreases v@.len() - i,
    {
        let ghost a = texts(labels@);
        let ghost b = texts(rules@);
        labels.push(v[i].label.clone());
        rules.push(v[i].rule.clone());
        proof {
            assert(texts(labels@) =~= a.push(v@[i as int].label@));
            assert(labels_of(s.subrange(0, i + 1)) =~= a.push(v@[i as int].label@));
            assert(texts(rules@) =~= b.push(v@[i as int].rule@));
            assert(rules_of(s.subrange(0, i + 1)) =~= b.push(v@[i as int].rule@));
        }
        i = i + 1;
    }
    assert(s.subrange(0, s.len() as int) =~= s);
    (labels, rules)
}

impl LanguageExtractorSet {
    #[verifier::type_invariant]
    spec fn has_distinct_labels(self) -> bool {
        labels_distinct(labels_of(self.extractors@))
    }

    pub closed spec fn extractor_list(self) -> Seq<ExtractorRule> {
        self.extractors@
    }

    pub closed spec fn of_language(self) -> Language {
        self.language
    }

    /// The set of the extractors, if no two of them have the same label. The error names the first
    /// label that occurs before.
    pub fn new(language: Language, extractors: Vec<ExtractorRule>) -> (r: Result<
        Self,
        DuplicateDiscriminatorError,
    >)
        ensures
            match r {
                Ok(set) => labels_distinct(labels_of(extractors@)) && set.extractor_list()
                    == extractors@ && set.of_language() == language,
                Err(e) => exists|i: int|
                    0 <= i < extractors@.len() && e.label@ == #[trigger] labels_of(
                        extractors@,
                    )[i] && repeats(labels_of(extractors@), i) && labels_distinct(
                        labels_of(extractors@).subrange(0, i),
                    ),
            },
    {
        let (labels, _) = field_texts(&extractors);
        assert(texts(labels@).len() == labels@.len());
        assert(labels_of(extractors@).len() == extractors@.len());
        match check_labels(&labels) {
            Ok(()) => Ok(LanguageExtractorSet { language, extractors }),
            Err(e) => Err(e),
        }
    }

    /// The rule that matches what any of the extractors matches.
    pub fn build_combined_rule(&self) -> (r: String)
        ensures
            r@ == combined_rule(
                language_title(self.of_language()) + "_combined"@,
                language_title(self.of_language()),
                rules_of(self.extractor_list()),
            ),
    {
        let title = self.language.title();
        let (_, rules) = field_texts(&self.extractors);
        build_combined_rule(concat(title, "_combined").as_str(), title, &rules)
    }

    /// Checks that all files are in the language of the set.
    pub fn check_languages(&self, files: &Vec<SourceFile>) -> (r: Result<(), ExtractorError>)
        ensures
            match r {
                Ok(()) => first_foreign(files@, self.of_language()) == files@.len(),
                Err(e) => {
                    let i = first_foreign(files@, self.of_language());
                    e matches ExtractorError::MethodExtraction { language, path, message, source }
                        && i < files@.len() && language@ == "unknown"@ && path@ == files@[i].path@
                        && message@ == "source file language '"@ + language_name(
                        files@[i].language,
                    ) + "' does not match extractor language"@ && source is None
                },
            },
    {
        let ghost s = files@;
        let ghost language = self.language;
        let mut i: usize = 0;
        assert(s.subrange(0, s.len() as int) =~= s);
        while i < files.len()
            invariant
                i <= files@.len(),
                s == files@,
                language == self.language,
                first_foreign(s, language) == i + first_foreign(
                    s.subrange(i as int, s.len() as int),
                    language,
                ),
            decreases files@.len() - i,
        {
            let ghost t = s.subrange(i as int, s.len() as int);
            assert(t[0] == files@[i as int]);
            assert(t.subrange(1, t.len() as int) =~= s.subrange(i + 1, s.len() as int));
            if files[i].language != self.language {
                let mut message = concat("source file language '", files[i].language.as_str());
                message.append("' does not match extractor language");
                return Err(
                    ExtractorError::method_extraction(
                        "unknown".to_string(),
                        files[i].path.clone(),
                        message,
                    ),
                );
            }
            i = i + 1;
        }
        Ok(())
    }

    /// The extractor that a match is for: the first one whose label the match binds.
    pub fn route(&self, bound: &Vec<String>) -> (r: Option<usize>)
        ensures
            match r {
                Some(i) => i < self.extractor_list().len() && i == first_bound(
                    labels_of(self.extractor_list()),
                    texts(bound@),
                ),
                None => first_bound(labels_of(self.extractor_list()), texts(bound@))
                    == self.extractor_list().len(),
            },
    {
        let ghost s = labels_of(self.extractors@);
        let ghost b = texts(bound@);
        let mut i: usize = 0;
        assert(s.subrange(0, s.len() as int) =~= s);
        while i < self.extractors.len()
            invariant
                i <= self.extractors@.len(),
                s == labels_of(self.extractors@),
                b == texts(bound@),
                first_bound(s, b) == i + first_bound(s.subrange(i as int, s.len() as int), b),
            decreases self.extractors@.len() - i,
        {
            let ghost t = s.subrange(i as int, s.len() as int);
            assert(t[0] == self.extractors@[i as int].label@);
            assert(t.subrange(1, t.len() as int) =~= s.subrange(i + 1, s.len() as int));
            if contains_text(bound, self.extractors[i].label.as_str()) {
                return Some(i);
            }
            i = i + 1;
        }
        None
    }
}

proof fn lemma_first_bound(labels: Seq<Seq<char>>, bound: Seq<Seq<char>>, i: int)
    requires
        0 <= i < labels.len(),
        bound.contains(labels[i]),
        forall|j: int| 0 <= j < i ==> !bound.contains(#[trigger] labels[j]),
    ensures
        first_bound(labels, bound) == i,
    decreases i,
{
    if i > 0 {
        let t = labels.subrange(1, labels.len() as int);
        assert(!bound.contains(labels[0]));
        assert forall|j: int| 0 <= j < i - 1 implies !bound.contains(#[trigger] t[j]) by {
            assert(t[j] == labels[j + 1]);
        }
        assert(t[i - 1] == labels[i]);
        lemma_first_bound(t, bound, i - 1);
    }
}

/// A match that binds the label of one extractor and of no other is for that extractor, in whatever
/// order the extractors stand.
pub proof fn matches_go_to_their_extractor(labels: Seq<Seq<char>>, bound: Seq<Seq<char>>, i: int)
    requires
        labels_distinct(labels),
        0 <= i < labels.len(),
        bound.contains(labels[i]),
        forall|j: int| 0 <= j < labels.len() && j != i ==> !bound.contains(#[trigger] labels[j]),
    ensures
        first_bound(labels, bound) == i,
{
    lemma_first_bound(labels, bound, i);
}

} // verus!
