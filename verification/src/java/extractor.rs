//! Finds imports and calls in Java source files.

use vstd::prelude::*;

use crate::casing::{camel_case, to_camel_case};
use crate::framework::{build_combined_rule, combined_rule};
use crate::java::arguments::{arguments_of, extract_arguments_from_node};
use crate::java::ast::{location_of, node_location, tree, AstNode, NodeView};
use crate::java::imports::{
    classify_utility_import, extract_service_from_import, import_path, imported_service,
    is_static_import, parse_import, utility_import, ImportTables, ImportTablesView,
};
use crate::java::scan::{java_scan, match_fits, scan_java, AstMatch, JavaScan, MatchView};
use crate::java::scope::{find_receiver_declaration, receiver_declaration, IDENTIFIER};
use crate::java::types::{
    both_found, nothing_found, opt_declaration, Call, CallView, DeclarationView, ExtractionResult,
    ExtractionView, Import, ImportView, Paginator, PaginatorView, ReceiverDeclaration,
    UtilityImport, UtilityImportView, Waiter, WaiterView,
};
use crate::language::{Language, SourceFile};
use crate::text::{
    after_prefix, before_suffix, concat, same, strip_prefix, strip_suffix, texts,
};

verus! {

/// One kind of syntax that is looked for.
#[derive(Debug, Clone, Copy, PartialEq, Eq, Structural)]
pub enum SdkExtractor {
    /// `import` declarations.
    Import,
    /// Calls of methods that end in `Paginator`.
    Paginator,
    /// Calls of methods that start with `waitUntil`.
    WaiterCall,
    /// All calls of methods on a receiver.
    MethodCall,
}

pub const IMPORT_RULE: &'static str =
    "kind: import_declaration\nhas:\n  pattern: $IMPORT_MARKER";

pub const PAGINATOR_RULE: &'static str =
    "kind: method_invocation\nall:\n  - has:\n      field: object\n      pattern: $PAG_CLIENT\n  - has:\n      field: name\n      regex: 'Paginator$'\n      pattern: $PAGINATOR_METHOD";

pub const WAITER_RULE: &'static str =
    "kind: method_invocation\nall:\n  - has:\n      field: object\n      pattern: $WAITER_OBJ\n  - has:\n      field: name\n      regex: '^waitUntil'\n      pattern: $WAIT_METHOD";

pub const METHOD_RULE: &'static str =
    "kind: method_invocation\nall:\n  - has:\n      field: object\n      pattern: $MC_OBJ\n  - has:\n      field: name\n      pattern: $MC_METHOD";

impl SdkExtractor {
    pub open spec fn rule(self) -> Seq<char> {
        match self {
            SdkExtractor::Import => IMPORT_RULE@,
            SdkExtractor::Paginator => PAGINATOR_RULE@,
            SdkExtractor::WaiterCall => WAITER_RULE@,
            SdkExtractor::MethodCall => METHOD_RULE@,
        }
    }

    pub open spec fn label(self) -> Seq<char> {
        match self {
            SdkExtractor::Import => "IMPORT_MARKER"@,
            SdkExtractor::Paginator => "PAGINATOR_METHOD"@,
            SdkExtractor::WaiterCall => "WAIT_METHOD"@,
            SdkExtractor::MethodCall => "MC_OBJ"@,
        }
    }

    /// The rule that finds the syntax.
    pub fn rule_yaml(&self) -> (r: &'static str)
        ensures
            r@ == self.rule(),
    {
        match self {
            SdkExtractor::Import => IMPORT_RULE,
            SdkExtractor::Paginator => PAGINATOR_RULE,
            SdkExtractor::WaiterCall => WAITER_RULE,
            SdkExtractor::MethodCall => METHOD_RULE,
        }
    }

    /// The label that only this rule binds.
    pub fn discriminator_label(&self) -> (r: &'static str)
        ensures
            r@ == self.label(),
    {
        match self {
            SdkExtractor::Import => "IMPORT_MARKER",
            SdkExtractor::Paginator => "PAGINATOR_METHOD",
            SdkExtractor::WaiterCall => "WAIT_METHOD",
            SdkExtractor::MethodCall => "MC_OBJ",
        }
    }
}

/// No two extractors have the same label, so a label tells which extractor a match is for.
pub proof fn labels_tell_extractors_apart(a: SdkExtractor, b: SdkExtractor)
    requires
        a.label() == b.label(),
    ensures
        a == b,
{
    reveal_strlit("IMPORT_MARKER");
    reveal_strlit("PAGINATOR_METHOD");
    reveal_strlit("WAIT_METHOD");
    reveal_strlit("MC_OBJ");
    assert("IMPORT_MARKER"@.len() == 13 && "PAGINATOR_METHOD"@.len() == 16);
    assert("WAIT_METHOD"@.len() == 11 && "MC_OBJ"@.len() == 6);
}

/// The labels that the rules bind.
pub open spec fn all_labels() -> Seq<Seq<char>> {
    seq![
        "IMPORT_MARKER"@,
        "PAGINATOR_METHOD"@,
        "PAG_CLIENT"@,
        "WAIT_METHOD"@,
        "WAITER_OBJ"@,
        "MC_OBJ"@,
        "MC_METHOD"@,
    ]
}

fn label_list() -> (r: Vec<String>)
    ensures
        texts(r@) == all_labels(),
{
    let r = vec![
        "IMPORT_MARKER".to_string(),
        "PAGINATOR_METHOD".to_string(),
        "PAG_CLIENT".to_string(),
        "WAIT_METHOD".to_string(),
        "WAITER_OBJ".to_string(),
        "MC_OBJ".to_string(),
        "MC_METHOD".to_string(),
    ];
    assert(texts(r@) =~= all_labels());
    r
}

/// What the label `labels[from..]` equal to `label` is bound to in a match.
pub open spec fn captured_from(
    labels: Seq<Seq<char>>,
    m: MatchView,
    label: Seq<char>,
    from: int,
) -> Option<usize>
    decreases labels.len() - from,
{
    if from >= labels.len() {
        None
    } else if labels[from] == label {
        m.captures[from]
    } else {
        captured_from(labels, m, label, from + 1)
    }
}

/// The node that `label` is bound to in a match.
pub open spec fn captured(m: MatchView, label: Seq<char>) -> Option<usize> {
    captured_from(all_labels(), m, label, 0)
}

/// The node that `label` is bound to in a match.
fn capture(labels: &Vec<String>, m: &AstMatch, label: &str, n: usize) -> (r: Option<usize>)
    requires
        texts(labels@) == all_labels(),
        match_fits(m@, labels@.len() as int, n as int),
    ensures
        r == captured(m@, label@),
        r matches Some(k) ==> k < n,
{
    let mut i: usize = 0;
    while i < labels.len()
        invariant
            texts(labels@) == all_labels(),
            match_fits(m@, labels@.len() as int, n as int),
            i <= labels@.len(),
            captured(m@, label@) == captured_from(all_labels(), m@, label@, i as int),
        decreases labels@.len() - i,
    {
        assert(texts(labels@)[i as int] == labels@[i as int]@);
        assert(all_labels().len() == labels@.len());
        if same(labels[i].as_str(), label) {
            assert(m@.captures[i as int] == m.captures@[i as int]);
            return m.captures[i];
        }
        i = i + 1;
    }
    assert(all_labels().len() == labels@.len());
    None
}

/// The declaration of the variable that `label` is bound to, if it is bound to a plain name.
pub open spec fn declaration_of_receiver(
    t: Seq<NodeView>,
    m: MatchView,
    label: Seq<char>,
    path: Seq<char>,
) -> Option<DeclarationView> {
    match captured(m, label) {
        Some(k) => if t[k as int].kind == IDENTIFIER@ {
            receiver_declaration(t, m.node as int, t[k as int].text, path)
        } else {
            None
        },
        None => None,
    }
}

/// The text that `label` is bound to.
pub open spec fn captured_text(t: Seq<NodeView>, m: MatchView, label: Seq<char>) -> Option<
    Seq<char>,
> {
    match captured(m, label) {
        Some(k) => Some(t[k as int].text),
        None => None,
    }
}

pub open spec fn found_import(
    t: Seq<NodeView>,
    m: MatchView,
    path: Seq<char>,
    tables: ImportTablesView,
) -> ExtractionView {
    let n = t[m.node as int];
    let expr = import_path(n.text);
    let location = node_location(path, n);
    match utility_import(expr, tables.utilities) {
        Some((utility_name, class_name)) => ExtractionView {
            utility_imports: seq![UtilityImportView { expr, utility_name, class_name, location }],
            ..nothing_found()
        },
        None => match imported_service(expr, tables.services) {
            Some(service) => ExtractionView {
                imports: seq![
                    ImportView { expr, service, location, is_static: is_static_import(n.text) },
                ],
                ..nothing_found()
            },
            None => nothing_found(),
        },
    }
}

pub open spec fn found_paginator(
    t: Seq<NodeView>,
    m: MatchView,
    path: Seq<char>,
) -> ExtractionView {
    let n = t[m.node as int];
    match captured_text(t, m, "PAGINATOR_METHOD"@) {
        Some(method) => ExtractionView {
            paginators: seq![
                PaginatorView {
                    expr: n.text,
                    operation: match before_suffix(method, "Paginator"@) {
                        Some(op) => op,
                        None => method,
                    },
                    parameters: arguments_of(t, m.node as int),
                    location: node_location(path, n),
                    receiver_declaration: declaration_of_receiver(t, m, "PAG_CLIENT"@, path),
                },
            ],
            ..nothing_found()
        },
        None => nothing_found(),
    }
}

pub open spec fn found_waiter(t: Seq<NodeView>, m: MatchView, path: Seq<char>) -> ExtractionView {
    let n = t[m.node as int];
    match captured_text(t, m, "WAIT_METHOD"@) {
        Some(method) => ExtractionView {
            waiters: seq![
                WaiterView {
                    expr: n.text,
                    name: camel_case(
                        match after_prefix(method, "waitUntil"@) {
                            Some(state) => state,
                            None => method,
                        },
                    ),
                    parameters: arguments_of(t, m.node as int),
                    location: node_location(path, n),
                    receiver_declaration: declaration_of_receiver(t, m, "WAITER_OBJ"@, path),
                },
            ],
            ..nothing_found()
        },
        None => nothing_found(),
    }
}

pub open spec fn found_call(t: Seq<NodeView>, m: MatchView, path: Seq<char>) -> ExtractionView {
    let n = t[m.node as int];
    match captured_text(t, m, "MC_METHOD"@) {
        Some(method) => ExtractionView {
            calls: seq![
                CallView {
                    expr: n.text,
                    receiver: captured_text(t, m, "MC_OBJ"@),
                    method,
                    parameters: arguments_of(t, m.node as int),
                    location: node_location(path, n),
                    receiver_declaration: declaration_of_receiver(t, m, "MC_OBJ"@, path),
                },
            ],
            ..nothing_found()
        },
        None => nothing_found(),
    }
}

/// What an extractor finds at a match.
pub open spec fn found_by(
    e: SdkExtractor,
    t: Seq<NodeView>,
    m: MatchView,
    path: Seq<char>,
    tables: ImportTablesView,
) -> ExtractionView {
    match e {
        SdkExtractor::Import => found_import(t, m, path, tables),
        SdkExtractor::Paginator => found_paginator(t, m, path),
        SdkExtractor::WaiterCall => found_waiter(t, m, path),
        SdkExtractor::MethodCall => found_call(t, m, path),
    }
}

/// What the first extractor whose label is bound finds at a match.
pub open spec fn found_at(
    es: Seq<SdkExtractor>,
    t: Seq<NodeView>,
    m: MatchView,
    path: Seq<char>,
    tables: ImportTablesView,
) -> ExtractionView
    decreases es.len(),
{
    if es.len() == 0 {
        nothing_found()
    } else if captured(m, es[0].label()) is Some {
        found_by(es[0], t, m, path, tables)
    } else {
        found_at(es.subrange(1, es.len() as int), t, m, path, tables)
    }
}

/// What is found at all the matches, in their order.
pub open spec fn found_in(
    es: Seq<SdkExtractor>,
    t: Seq<NodeView>,
    ms: Seq<MatchView>,
    path: Seq<char>,
    tables: ImportTablesView,
) -> ExtractionView
    decreases ms.len(),
{
    if ms.len() == 0 {
        nothing_found()
    } else {
        both_found(
            found_in(es, t, ms.drop_last(), path, tables),
            found_at(es, t, ms.last(), path, tables),
        )
    }
}

pub open spec fn rules_of(es: Seq<SdkExtractor>) -> Seq<Seq<char>> {
    es.map_values(|e: SdkExtractor| e.rule())
}

/// The rule that finds what any of the extractors looks for.
pub open spec fn rule_of(es: Seq<SdkExtractor>) -> Seq<char> {
    combined_rule("java_combined"@, "Java"@, rules_of(es))
}

/// Whether a text is the rule of some extractors. Such a rule file holds one rule, which knows
/// neither constraints nor transformations.
pub open spec fn is_rule_file(rule: Seq<char>) -> bool {
    exists|es: Seq<SdkExtractor>| rule == #[trigger] rule_of(es)
}

/// Why nothing could be extracted from a file.
#[derive(Debug, PartialEq, Eq)]
pub enum JavaExtractionError {
    /// The file is no Java file.
    NotJavaFile { path: String },
    /// The rule or the file could not be read.
    ParseError { path: String, message: String },
}

pub enum JavaErrorView {
    NotJavaFile { path: Seq<char> },
    ParseError { path: Seq<char>, message: Seq<char> },
}

impl View for JavaExtractionError {
    type V = JavaErrorView;

    open spec fn view(&self) -> JavaErrorView {
        match self {
            JavaExtractionError::NotJavaFile { path } => JavaErrorView::NotJavaFile { path: path@ },
            JavaExtractionError::ParseError { path, message } => JavaErrorView::ParseError {
                path: path@,
                message: message@,
            },
        }
    }
}

impl JavaExtractionError {
    /// The text that tells a reader what went wrong.
    pub fn describe(&self) -> (r: String)
        ensures
            r@ == (match self@ {
                JavaErrorView::NotJavaFile { path } => "Source file is not Java: "@ + path,
                JavaErrorView::ParseError { path, message } => "Failed to parse Java source '"@
                    + path + "': "@ + message,
            }),
    {
        match self {
            JavaExtractionError::NotJavaFile { path } => concat(
                "Source file is not Java: ",
                path.as_str(),
            ),
            JavaExtractionError::ParseError { path, message } => {
                let mut r = concat("Failed to parse Java source '", path.as_str());
                r.append("': ");
                r.append(message.as_str());
                r
            },
        }
    }
}

fn receiver_declaration_from_capture(
    t: &Vec<AstNode>,
    labels: &Vec<String>,
    m: &AstMatch,
    label: &str,
    path: &str,
) -> (r: Option<ReceiverDeclaration>)
    requires
        crate::java::ast::positions_fit(tree(t@)),
        texts(labels@) == all_labels(),
        match_fits(m@, labels@.len() as int, t@.len() as int),
    ensures
        opt_declaration(r) == declaration_of_receiver(tree(t@), m@, label@, path@),
{
    match capture(labels, m, label, t.len()) {
        Some(k) => {
            assert(tree(t@)[k as int] == t@[k as int]@);
            if same(t[k].kind.as_str(), IDENTIFIER) {
                find_receiver_declaration(t, m.node, t[k].text.as_str(), path)
            } else {
                None
            }
        },
        None => None,
    }
}

impl SdkExtractor {
    /// Appends what this extractor finds at a match.
    pub fn process(
        &self,
        t: &Vec<AstNode>,
        m: &AstMatch,
        path: &str,
        tables: &ImportTables,
        result: &mut ExtractionResult,
    )
        requires
            crate::java::ast::positions_fit(tree(t@)),
            match_fits(m@, all_labels().len() as int, t@.len() as int),
        ensures
            final(result)@ == both_found(
                old(result)@,
                found_by(*self, tree(t@), m@, path@, tables@),
            ),
    {
        let labels = label_list();
        assert(texts(labels@).len() == labels@.len());
        let ghost v = tree(t@);
        let ghost before = result@;
        assert(v[m.node as int] == t@[m.node as int]@);
        let n = &t[m.node];
        match self {
            SdkExtractor::Import => {
                let (expr, is_static) = parse_import(n.text.as_str());
                let location = location_of(path, n);
                match classify_utility_import(expr.as_str(), tables) {
                    Some((utility_name, class_name)) => {
                        result.utility_imports.push(
                            UtilityImport { expr, utility_name, class_name, location },
                        );
                    },
                    None => {
                        match extract_service_from_import(expr.as_str(), tables) {
                            Some(service) => {
                                result.imports.push(Import { expr, service, location, is_static });
                            },
                            None => {},
                        }
                    },
                }
            },
            SdkExtractor::Paginator => {
                match capture(&labels, m, "PAGINATOR_METHOD", t.len()) {
                    Some(k) => {
                        assert(v[k as int] == t@[k as int]@);
                        let method = t[k].text.clone();
                        let operation = match strip_suffix(method.as_str(), "Paginator") {
                            Some(op) => op,
                            None => method,
                        };
                        result.paginators.push(
                            Paginator {
                                expr: n.text.clone(),
                                operation,
                                parameters: extract_arguments_from_node(t, m.node),
                                location: location_of(path, n),
                                receiver_declaration: receiver_declaration_from_capture(
                                    t,
                                    &labels,
                                    m,
                                    "PAG_CLIENT",
                                    path,
                                ),
                            },
                        );
                    },
                    None => {},
                }
            },
            SdkExtractor::WaiterCall => {
                match capture(&labels, m, "WAIT_METHOD", t.len()) {
                    Some(k) => {
                        assert(v[k as int] == t@[k as int]@);
                        let method = t[k].text.clone();
                        let state = match strip_prefix(method.as_str(), "waitUntil") {
                            Some(s) => s,
                            None => method,
                        };
                        result.waiters.push(
                            Waiter {
                                expr: n.text.clone(),
                                name: to_camel_case(state.as_str()),
                                parameters: extract_arguments_from_node(t, m.node),
                                location: location_of(path, n),
                                receiver_declaration: receiver_declaration_from_capture(
                                    t,
                                    &labels,
                                    m,
                                    "WAITER_OBJ",
                                    path,
                                ),
                            },
                        );
                    },
                    None => {},
                }
            },
            SdkExtractor::MethodCall => {
                match capture(&labels, m, "MC_METHOD", t.len()) {
                    Some(k) => {
                        assert(v[k as int] == t@[k as int]@);
                        let receiver = match capture(&labels, m, "MC_OBJ", t.len()) {
                            Some(o) => {
                                assert(v[o as int] == t@[o as int]@);
                                Some(t[o].text.clone())
                            },
                            None => None,
                        };
                        result.calls.push(
                            Call {
                                expr: n.text.clone(),
                                receiver,
                                method: t[k].text.clone(),
                                parameters: extract_arguments_from_node(t, m.node),
                                location: location_of(path, n),
                                receiver_declaration: receiver_declaration_from_capture(
                                    t,
                                    &labels,
                                    m,
                                    "MC_OBJ",
                                    path,
                                ),
                            },
                        );
                    },
                    None => {},
                }
            },
        }
        assert(result@ =~= both_found(before, found_by(*self, v, m@, path@, tables@)));
    }
}

/// The extractors that run together over a file.
#[derive(Debug)]
pub struct JavaLanguageExtractorSet {
    pub extractors: Vec<SdkExtractor>,
}

impl JavaLanguageExtractorSet {
    /// The extractors for AWS SDK for Java v2, the more specific ones first.
    pub fn default_aws_v2() -> (r: Self)
        ensures
            r.extractors@ == seq![
                SdkExtractor::Import,
                SdkExtractor::Paginator,
                SdkExtractor::WaiterCall,
                SdkExtractor::MethodCall,
            ],
    {
        let extractors = vec![
            SdkExtractor::Import,
            SdkExtractor::Paginator,
            SdkExtractor::WaiterCall,
            SdkExtractor::MethodCall,
        ];
        JavaLanguageExtractorSet { extractors }
    }

    /// The rule that finds what any of the extractors looks for.
    pub fn build_combined_rule(&self) -> (r: String)
        ensures
            r@ == rule_of(self.extractors@),
    {
        let mut bodies: Vec<String> = Vec::new();
        let mut i: usize = 0;
        while i < self.extractors.len()
            invariant
                i <= self.extractors@.len(),
                texts(bodies@) == rules_of(self.extractors@).subrange(0, i as int),
            decreases self.extractors@.len() - i,
        {
            let ghost before = texts(bodies@);
            let body = self.extractors[i].rule_yaml().to_string();
            bodies.push(body);
            proof {
                assert(texts(bodies@) =~= before.push(body@));
                assert(rules_of(self.extractors@).subrange(0, i + 1) =~= before.push(
                    rules_of(self.extractors@)[i as int],
                ));
            }
            i = i + 1;
        }
        assert(rules_of(self.extractors@).subrange(0, i as int) =~= rules_of(self.extractors@));
        build_combined_rule("java_combined", "Java", &bodies)
    }

    fn route(
        &self,
        scan: &JavaScan,
        m: &AstMatch,
        path: &str,
        tables: &ImportTables,
        result: &mut ExtractionResult,
    )
        requires
            crate::java::ast::positions_fit(tree(scan.nodes@)),
            match_fits(m@, all_labels().len() as int, scan.nodes@.len() as int),
        ensures
            final(result)@ == both_found(
                old(result)@,
                found_at(self.extractors@, tree(scan.nodes@), m@, path@, tables@),
            ),
    {
        let labels = label_list();
        assert(texts(labels@).len() == labels@.len());
        let ghost v = tree(scan.nodes@);
        let ghost es = self.extractors@;
        let mut i: usize = 0;
        assert(es.subrange(0, es.len() as int) == es);
        while i < self.extractors.len()
            invariant
                i <= self.extractors@.len(),
                es == self.extractors@,
                v == tree(scan.nodes@),
                texts(labels@) == all_labels(),
                labels@.len() == all_labels().len(),
                crate::java::ast::positions_fit(v),
                match_fits(m@, all_labels().len() as int, scan.nodes@.len() as int),
                result@ == old(result)@,
                found_at(es, v, m@, path@, tables@) == found_at(
                    es.subrange(i as int, es.len() as int),
                    v,
                    m@,
                    path@,
                    tables@,
                ),
            decreases self.extractors@.len() - i,
        {
            let e = self.extractors[i];
            proof {
                let u = es.subrange(i as int, es.len() as int);
                assert(u[0] == e);
                assert(u.subrange(1, u.len() as int) == es.subrange(i + 1, es.len() as int));
            }
            if capture(&labels, m, e.discriminator_label(), scan.nodes.len()).is_some() {
                e.process(&scan.nodes, m, path, tables, result);
                return;
            }
            i = i + 1;
        }
        proof {
            crate::java::types::merging_nothing_changes_nothing(result@);
        }
    }

    /// What the extractors find at the matches of a scan of the file `path`.
    pub fn collect(&self, scan: &JavaScan, path: &str, tables: &ImportTables) -> (r:
        ExtractionResult)
        requires
            scan.wf(all_labels().len() as int),
        ensures
            r@ == found_in(self.extractors@, scan@.nodes, scan@.matches, path@, tables@),
    {
        let mut result = ExtractionResult::default();
        let ghost es = self.extractors@;
        let ghost t = scan@.nodes;
        let ghost ms = scan@.matches;
        let mut i: usize = 0;
        assert(ms.subrange(0, 0).len() == 0);
        while i < scan.matches.len()
            invariant
                i <= scan.matches@.len(),
                scan.wf(all_labels().len() as int),
                es == self.extractors@,
                t == scan@.nodes,
                ms == scan@.matches,
                result@ == found_in(es, t, ms.subrange(0, i as int), path@, tables@),
            decreases scan.matches@.len() - i,
        {
            proof {
                let u = ms.subrange(0, i + 1);
                assert(u.drop_last() == ms.subrange(0, i as int));
                assert(u.last() == scan.matches@[i as int]@);
                assert(match_fits(ms[i as int], all_labels().len() as int, t.len() as int));
            }
            self.route(scan, &scan.matches[i], path, tables, &mut result);
            i = i + 1;
        }
        assert(ms.subrange(0, ms.len() as int) == ms);
        result
    }

    /// What the extractors find in a file.
    pub fn extract_from_file(&self, file: &SourceFile, tables: &ImportTables) -> (r: Result<
        ExtractionResult,
        JavaExtractionError,
    >)
        ensures
            match r {
                Ok(found) => file.language == Language::Java && (java_scan(
                    rule_of(self.extractors@),
                    all_labels(),
                    file.content@,
                ) matches Ok(scan) && found@ == found_in(
                    self.extractors@,
                    scan.nodes,
                    scan.matches,
                    file.path@,
                    tables@,
                )),
                Err(e) => if file.language != Language::Java {
                    e@ == (JavaErrorView::NotJavaFile { path: file.path@ })
                } else {
                    java_scan(rule_of(self.extractors@), all_labels(), file.content@) matches Err(
                        message,
                    ) && e@ == (JavaErrorView::ParseError {
                        path: file.path@,
                        message: "Failed to compile combined rule: "@ + message,
                    })
                },
            },
    {
        if file.language != Language::Java {
            return Err(JavaExtractionError::NotJavaFile { path: file.path.clone() });
        }
        let rule = self.build_combined_rule();
        let labels = label_list();
        assert(texts(labels@).len() == labels@.len());
        match scan_java(rule.as_str(), &labels, file.content.as_str()) {
            Ok(scan) => Ok(self.collect(&scan, file.path.as_str(), tables)),
            Err(message) => Err(
                JavaExtractionError::ParseError {
                    path: file.path.clone(),
                    message: concat("Failed to compile combined rule: ", message.as_str()),
                },
            ),
        }
    }
}

} // verus!
