//! What holds of the syntax that is found in Java files.

use vstd::prelude::*;

use crate::casing::{ascii_lower, ascii_upper, camel_case, lower_case, upper_case_char};
use crate::java::arguments::{argument_list_in, arguments_in, arguments_of, literal_value};
use crate::java::ast::{children_of, node_location, NodeView};
use crate::java::extractor::{
    all_labels, captured, captured_from, declaration_of_receiver, found_at, found_by, found_in,
    JavaErrorView, SdkExtractor,
};
use crate::java::imports::{
    import_path, imported_service, is_static_import, utility_import, ImportTablesView,
};
use crate::java::naming::{
    all_ascii_capitalized, all_capitalized, ascii_capitalized, camel_spaced, capitalized,
    regex_replaced, same_but_case, service_class_name, without_leading, without_trailing, words_of,
};
use crate::java::pipeline::{found_in_file, found_in_files};
use crate::java::scan::MatchView;
use crate::java::scope::receiver_declaration;
use crate::java::types::{
    both_found, nothing_found, receiver_type_of, CallView, ExtractionView, ImportView,
    PaginatorView, UtilityImportView, WaiterView,
};
use crate::java::utilities::{
    calls_by_features, calls_by_services, class_part, feature_calls, is_utility_call,
    type_is_receiver, utility_calls, FeatureView, UtilityServiceView,
};
use crate::language::{Language, SourceFile};
use crate::paths::path_components;
use crate::sdk::{MetadataView, ParameterValueView, ParameterView, SdkCallView};
use crate::text::split_on;
use crate::text_laws::{
    characters_around_are_trimmed, prefixes_stand_before_the_rest, suffixes_stand_behind_the_rest,
    texts_are_cut_everywhere, texts_without_prefix,
};

verus! {

/// A label stands for the node that the match has at its place among the labels.
pub proof fn labels_have_their_places(m: MatchView)
    ensures
        captured(m, "IMPORT_MARKER"@) == m.captures[0],
        captured(m, "PAGINATOR_METHOD"@) == m.captures[1],
        captured(m, "PAG_CLIENT"@) == m.captures[2],
        captured(m, "WAIT_METHOD"@) == m.captures[3],
        captured(m, "WAITER_OBJ"@) == m.captures[4],
        captured(m, "MC_OBJ"@) == m.captures[5],
        captured(m, "MC_METHOD"@) == m.captures[6],
{
    reveal_with_fuel(captured_from, 8);
    reveal_strlit("IMPORT_MARKER");
    reveal_strlit("PAGINATOR_METHOD");
    reveal_strlit("PAG_CLIENT");
    reveal_strlit("WAIT_METHOD");
    reveal_strlit("WAITER_OBJ");
    reveal_strlit("MC_OBJ");
    reveal_strlit("MC_METHOD");
    let v = all_labels();
    assert(v.len() == 7);
    assert(v[0].len() == 13 && v[1].len() == 16 && v[2].len() == 10 && v[3].len() == 11);
    assert(v[4].len() == 10 && v[5].len() == 6 && v[6].len() == 9);
    assert(v[2][0] == 'P' && v[4][0] == 'W');
}

/// A match counts for the first kind of syntax whose label it has, and for no other.
pub proof fn matches_count_once(
    es: Seq<SdkExtractor>,
    t: Seq<NodeView>,
    m: MatchView,
    path: Seq<char>,
    tables: ImportTablesView,
    i: int,
)
    requires
        0 <= i <= es.len(),
        forall|j: int| 0 <= j < i ==> captured(m, (#[trigger] es[j]).label()) is None,
        i < es.len() ==> captured(m, es[i].label()) is Some,
    ensures
        i < es.len() ==> found_at(es, t, m, path, tables) == found_by(es[i], t, m, path, tables),
        i == es.len() ==> found_at(es, t, m, path, tables) == nothing_found(),
    decreases es.len(),
{
    if i > 0 {
        let rest = es.subrange(1, es.len() as int);
        assert(captured(m, es[0].label()) is None);
        assert forall|j: int| 0 <= j < i - 1 implies captured(
            m,
            (#[trigger] rest[j]).label(),
        ) is None by {
            assert(rest[j] == es[j + 1]);
        }
        matches_count_once(rest, t, m, path, tables, i - 1);
    }
}

/// Matches are taken one by one, in their order.
pub proof fn matches_are_taken_one_by_one(
    es: Seq<SdkExtractor>,
    t: Seq<NodeView>,
    a: Seq<MatchView>,
    m: MatchView,
    path: Seq<char>,
    tables: ImportTablesView,
)
    ensures
        found_in(es, t, a.push(m), path, tables) == both_found(
            found_in(es, t, a, path, tables),
            found_at(es, t, m, path, tables),
        ),
        found_in(es, t, Seq::empty(), path, tables) == nothing_found(),
        nothing_found().calls.len() == 0,
        nothing_found().waiters.len() == 0,
        nothing_found().paginators.len() == 0,
        nothing_found().imports.len() == 0,
        nothing_found().utility_imports.len() == 0,
{
    assert(a.push(m).drop_last() =~= a);
}

/// A paginator is named after its operation, and has the arguments, the place and the client of the
/// call.
pub proof fn paginators_are_found(
    t: Seq<NodeView>,
    m: MatchView,
    path: Seq<char>,
    tables: ImportTablesView,
    k: usize,
    op: Seq<char>,
)
    requires
        m.captures[1] == Some(k),
        t[k as int].text == op + "Paginator"@,
    ensures
        found_by(SdkExtractor::Paginator, t, m, path, tables) == (ExtractionView {
            paginators: seq![
                PaginatorView {
                    expr: t[m.node as int].text,
                    operation: op,
                    parameters: arguments_of(t, m.node as int),
                    location: node_location(path, t[m.node as int]),
                    receiver_declaration: declaration_of_receiver(t, m, "PAG_CLIENT"@, path),
                },
            ],
            ..nothing_found()
        }),
{
    labels_have_their_places(m);
    suffixes_stand_behind_the_rest(op, "Paginator"@);
}

/// A waiter is named after what it waits for, and has the arguments, the place and the receiver of
/// the call.
pub proof fn waiters_are_found(
    t: Seq<NodeView>,
    m: MatchView,
    path: Seq<char>,
    tables: ImportTablesView,
    k: usize,
    state: Seq<char>,
)
    requires
        m.captures[3] == Some(k),
        t[k as int].text == "waitUntil"@ + state,
    ensures
        found_by(SdkExtractor::WaiterCall, t, m, path, tables) == (ExtractionView {
            waiters: seq![
                WaiterView {
                    expr: t[m.node as int].text,
                    name: camel_case(state),
                    parameters: arguments_of(t, m.node as int),
                    location: node_location(path, t[m.node as int]),
                    receiver_declaration: declaration_of_receiver(t, m, "WAITER_OBJ"@, path),
                },
            ],
            ..nothing_found()
        }),
{
    labels_have_their_places(m);
    prefixes_stand_before_the_rest("waitUntil"@, state);
}

/// A method call has the name of the method, and the arguments, the place and the receiver of the
/// call.
pub proof fn calls_are_found(
    t: Seq<NodeView>,
    m: MatchView,
    path: Seq<char>,
    tables: ImportTablesView,
    k: usize,
)
    requires
        m.captures[6] == Some(k),
    ensures
        found_by(SdkExtractor::MethodCall, t, m, path, tables) == (ExtractionView {
            calls: seq![
                CallView {
                    expr: t[m.node as int].text,
                    receiver: match m.captures[5] {
                        Some(r) => Some(t[r as int].text),
                        None => None,
                    },
                    method: t[k as int].text,
                    parameters: arguments_of(t, m.node as int),
                    location: node_location(path, t[m.node as int]),
                    receiver_declaration: declaration_of_receiver(t, m, "MC_OBJ"@, path),
                },
            ],
            ..nothing_found()
        }),
{
    labels_have_their_places(m);
}

/// The declaration of a receiver is looked up if the receiver is a plain name.
pub proof fn named_receivers_are_looked_up(
    t: Seq<NodeView>,
    m: MatchView,
    label: Seq<char>,
    path: Seq<char>,
)
    ensures
        match captured(m, label) {
            Some(k) => t[k as int].kind == "identifier"@ ==> declaration_of_receiver(
                t,
                m,
                label,
                path,
            ) == receiver_declaration(t, m.node as int, t[k as int].text, path),
            None => declaration_of_receiver(t, m, label, path) is None,
        },
        captured(m, label) matches Some(k) ==> t[k as int].kind != "identifier"@
            ==> declaration_of_receiver(t, m, label, path) is None,
{
}

/// An import is that of a utility, of a service or of neither; what it names is its path.
pub proof fn imports_are_found(
    t: Seq<NodeView>,
    m: MatchView,
    path: Seq<char>,
    tables: ImportTablesView,
)
    ensures
        ({
            let n = t[m.node as int];
            let found = found_by(SdkExtractor::Import, t, m, path, tables);
            let expr = import_path(n.text);
            match utility_import(expr, tables.utilities) {
                Some(u) => found.utility_imports == seq![
                    UtilityImportView {
                        expr,
                        utility_name: u.0,
                        class_name: u.1,
                        location: node_location(path, n),
                    },
                ] && found.imports.len() == 0,
                None => found.utility_imports.len() == 0 && match imported_service(
                    expr,
                    tables.services,
                ) {
                    Some(service) => found.imports == seq![
                        ImportView {
                            expr,
                            service,
                            location: node_location(path, n),
                            is_static: is_static_import(n.text),
                        },
                    ],
                    None => found.imports.len() == 0,
                },
            }
        }),
        ({
            let found = found_by(SdkExtractor::Import, t, m, path, tables);
            found.calls.len() == 0 && found.waiters.len() == 0 && found.paginators.len() == 0
        }),
{
}

/// The value of a literal is its text, without the quotes around a string or a character; what is no
/// literal is not resolved.
pub proof fn literals_have_their_values(n: NodeView, s: Seq<char>)
    requires
        s.len() > 0,
    ensures
        n.kind == "string_literal"@ && n.text == seq!['"'] + s + seq!['"'] && s[0] != '"'
            && s.last() != '"' ==> literal_value(n) == ParameterValueView::Resolved(s),
        n.kind == "character_literal"@ && n.text == seq!['\''] + s + seq!['\''] && s[0] != '\''
            && s.last() != '\'' ==> literal_value(n) == ParameterValueView::Resolved(s),
        n.kind == "decimal_integer_literal"@ || n.kind == "decimal_floating_point_literal"@
            || n.kind == "hex_integer_literal"@ || n.kind == "octal_integer_literal"@ || n.kind
            == "binary_integer_literal"@ || n.kind == "true"@ || n.kind == "false"@ || n.kind
            == "null_literal"@ ==> literal_value(n) == ParameterValueView::Resolved(n.text),
        n.kind == "identifier"@ || n.kind == "method_invocation"@ ==> literal_value(n)
            == ParameterValueView::Unresolved(n.text),
{
    reveal_strlit("string_literal");
    reveal_strlit("character_literal");
    reveal_strlit("decimal_integer_literal");
    reveal_strlit("decimal_floating_point_literal");
    reveal_strlit("hex_integer_literal");
    reveal_strlit("octal_integer_literal");
    reveal_strlit("binary_integer_literal");
    reveal_strlit("true");
    reveal_strlit("false");
    reveal_strlit("null_literal");
    reveal_strlit("identifier");
    reveal_strlit("method_invocation");
    assert("string_literal"@.len() == 14 && "character_literal"@.len() == 17);
    assert("decimal_integer_literal"@.len() == 23);
    assert("decimal_floating_point_literal"@.len() == 30);
    assert("hex_integer_literal"@.len() == 19 && "octal_integer_literal"@.len() == 21);
    assert("binary_integer_literal"@.len() == 22 && "true"@.len() == 4 && "false"@.len() == 5);
    assert("null_literal"@.len() == 12);
    assert("identifier"@.len() == 10 && "method_invocation"@.len() == 17);
    assert("method_invocation"@[0] == 'm' && "character_literal"@[0] == 'c');
    if s[0] != '"' && s.last() != '"' {
        characters_around_are_trimmed(seq!['"'], s, seq!['"'], '"');
    }
    if s[0] != '\'' && s.last() != '\'' {
        characters_around_are_trimmed(seq!['\''], s, seq!['\''], '\'');
    }
}

/// Arguments are taken one by one, at the positions at which they stand; brackets and commas are
/// none.
pub proof fn arguments_are_taken_one_by_one(t: Seq<NodeView>, a: Seq<int>, k: int)
    ensures
        t[k].kind == "("@ || t[k].kind == ")"@ || t[k].kind == ","@ ==> arguments_in(t, a.push(k))
            == arguments_in(t, a),
        t[k].kind != "("@ && t[k].kind != ")"@ && t[k].kind != ","@ ==> arguments_in(t, a.push(k))
            == arguments_in(t, a).push(
            ParameterView::Positional {
                value: literal_value(t[k]),
                position: arguments_in(t, a).len() as usize,
                type_annotation: None,
                struct_fields: None,
            },
        ),
        arguments_in(t, Seq::empty()).len() == 0,
{
    assert(a.push(k).drop_last() =~= a);
}

/// The arguments of a call are those of its first list of arguments.
pub proof fn calls_have_the_arguments_of_their_list(t: Seq<NodeView>, n: int, i: int)
    requires
        0 <= i <= children_of(t, n).len(),
        forall|j: int| 0 <= j < i ==> t[#[trigger] children_of(t, n)[j]].kind != "argument_list"@,
        i < children_of(t, n).len() ==> t[children_of(t, n)[i]].kind == "argument_list"@,
    ensures
        i < children_of(t, n).len() ==> arguments_of(t, n) == arguments_in(
            t,
            children_of(t, children_of(t, n)[i]),
        ),
        i == children_of(t, n).len() ==> arguments_of(t, n).len() == 0,
{
    lemma_argument_list(t, children_of(t, n), i);
}

proof fn lemma_argument_list(t: Seq<NodeView>, ks: Seq<int>, i: int)
    requires
        0 <= i <= ks.len(),
        forall|j: int| 0 <= j < i ==> t[#[trigger] ks[j]].kind != "argument_list"@,
        i < ks.len() ==> t[ks[i]].kind == "argument_list"@,
    ensures
        i < ks.len() ==> argument_list_in(t, ks) == Some(ks[i]),
        i == ks.len() ==> argument_list_in(t, ks) is None,
    decreases ks.len(),
{
    if i > 0 {
        let rest = ks.subrange(1, ks.len() as int);
        assert(t[ks[0]].kind != "argument_list"@);
        assert forall|j: int| 0 <= j < i - 1 implies t[#[trigger] rest[j]].kind
            != "argument_list"@ by {
            assert(rest[j] == ks[j + 1]);
        }
        lemma_argument_list(t, rest, i - 1);
    }
}

/// A type is the receiver of a feature if it is written as its class, or with the package before it
/// and perhaps type arguments behind it.
pub proof fn receivers_of_features_are_named(f: FeatureView, arguments: Seq<char>)
    requires
        !f.receiver_class.contains('.'),
        !f.receiver_class.contains('<'),
    ensures
        type_is_receiver(f.receiver_class, f),
        type_is_receiver(f.import + "."@ + f.receiver_class, f),
        type_is_receiver(f.import + "."@ + f.receiver_class + seq!['<'] + arguments, f),
{
    let p = f.import + "."@;
    let class = f.receiver_class;
    let none = Seq::<char>::empty();
    prefixes_stand_before_the_rest(p, class);
    let rest = class + seq!['<'] + arguments;
    prefixes_stand_before_the_rest(p, rest);
    assert(p + class + seq!['<'] + arguments =~= p + rest);
    texts_are_cut_everywhere(class, '<', arguments);
    texts_are_cut_everywhere(class, '.', none);
    assert(class_part(class) == class);
    assert(class_part(rest) == class);
}

/// A type that is neither the class of a feature nor in its package is not its receiver.
pub proof fn other_types_receive_no_feature(name: Seq<char>, f: FeatureView)
    requires
        name != f.receiver_class,
        forall|s: Seq<char>| name != #[trigger] (f.import + "."@ + s),
    ensures
        !type_is_receiver(name, f),
{
    texts_without_prefix(name, f.import + "."@);
}

/// A call is one of a feature exactly if it has its method and its receiver; where the type of the
/// receiver is not known, the file has to import the class.
pub proof fn features_are_called_by_method_and_receiver(
    c: CallView,
    imports: Seq<UtilityImportView>,
    service: Seq<char>,
    f: FeatureView,
)
    ensures
        is_utility_call(c, imports, service, f) <==> c.method == f.method_name && (if receiver_type_of(
            c.receiver_declaration,
        ) is Some {
            type_is_receiver(receiver_type_of(c.receiver_declaration)->0, f)
        } else {
            exists|i: int|
                0 <= i < imports.len() && path_components(
                    (#[trigger] imports[i]).location.file_path,
                ) == path_components(c.location.file_path) && (imports[i].class_name
                    == f.receiver_class || (imports[i].class_name == "*"@ && imports[i].utility_name
                    == service))
        }),
{
}

/// A call of a feature makes each of its operations, with the text, place and arguments of the call.
pub proof fn features_call_all_their_operations(c: CallView, f: FeatureView, i: int)
    requires
        0 <= i < f.operations.len(),
    ensures
        feature_calls(c, f).len() == f.operations.len(),
        feature_calls(c, f)[i] == (SdkCallView {
            name: f.operations[i].name,
            possible_services: seq![f.operations[i].service],
            metadata: Some(
                MetadataView {
                    expr: c.expr,
                    location: c.location,
                    parameters: c.parameters,
                    receiver: None,
                },
            ),
        }),
{
}

/// Every feature of every service is tried, in its order.
pub proof fn features_are_tried_one_by_one(
    c: CallView,
    imports: Seq<UtilityImportView>,
    service: Seq<char>,
    fs: Seq<FeatureView>,
    f: FeatureView,
    ss: Seq<UtilityServiceView>,
    s: UtilityServiceView,
    cs: Seq<CallView>,
)
    ensures
        calls_by_features(c, imports, service, fs.push(f)) == calls_by_features(
            c,
            imports,
            service,
            fs,
        ) + (if is_utility_call(c, imports, service, f) {
            feature_calls(c, f)
        } else {
            Seq::empty()
        }),
        calls_by_services(c, imports, ss.push(s)) == calls_by_services(c, imports, ss)
            + calls_by_features(c, imports, s.name, s.features),
        utility_calls(cs.push(c), imports, ss) == utility_calls(cs, imports, ss)
            + calls_by_services(c, imports, ss),
        calls_by_features(c, imports, service, Seq::empty()).len() == 0,
        calls_by_services(c, imports, Seq::empty()).len() == 0,
        utility_calls(Seq::empty(), imports, ss).len() == 0,
{
    assert(fs.push(f).drop_last() =~= fs);
    assert(ss.push(s).drop_last() =~= ss);
    assert(cs.push(c).drop_last() =~= cs);
}

/// A call of a feature of any service of the model is among the calls.
pub proof fn utilities_are_called(
    cs: Seq<CallView>,
    k: int,
    imports: Seq<UtilityImportView>,
    ss: Seq<UtilityServiceView>,
    n: int,
    j: int,
    i: int,
)
    requires
        0 <= k < cs.len(),
        0 <= n < ss.len(),
        0 <= j < ss[n].features.len(),
        is_utility_call(cs[k], imports, ss[n].name, ss[n].features[j]),
        0 <= i < ss[n].features[j].operations.len(),
    ensures
        utility_calls(cs, imports, ss).contains(
            SdkCallView {
                name: ss[n].features[j].operations[i].name,
                possible_services: seq![ss[n].features[j].operations[i].service],
                metadata: Some(
                    MetadataView {
                        expr: cs[k].expr,
                        location: cs[k].location,
                        parameters: cs[k].parameters,
                        receiver: None,
                    },
                ),
            },
        ),
{
    let x = feature_calls(cs[k], ss[n].features[j])[i];
    assert(feature_calls(cs[k], ss[n].features[j]).contains(x));
    lemma_feature_called(cs[k], imports, ss[n].name, ss[n].features, j, x);
    lemma_service_called(cs[k], imports, ss, n, x);
    lemma_call_called(cs, imports, ss, k, x);
}

proof fn lemma_feature_called(
    c: CallView,
    imports: Seq<UtilityImportView>,
    service: Seq<char>,
    fs: Seq<FeatureView>,
    j: int,
    x: SdkCallView,
)
    requires
        0 <= j < fs.len(),
        is_utility_call(c, imports, service, fs[j]),
        feature_calls(c, fs[j]).contains(x),
    ensures
        calls_by_features(c, imports, service, fs).contains(x),
    decreases fs.len(),
{
    broadcast use vstd::seq_lib::lemma_seq_concat_contains_all_elements;

    if j < fs.len() - 1 {
        assert(fs.drop_last()[j] == fs[j]);
        lemma_feature_called(c, imports, service, fs.drop_last(), j, x);
    } else {
        assert(fs[j] == fs.last());
    }
}

proof fn lemma_service_called(
    c: CallView,
    imports: Seq<UtilityImportView>,
    ss: Seq<UtilityServiceView>,
    n: int,
    x: SdkCallView,
)
    requires
        0 <= n < ss.len(),
        calls_by_features(c, imports, ss[n].name, ss[n].features).contains(x),
    ensures
        calls_by_services(c, imports, ss).contains(x),
    decreases ss.len(),
{
    broadcast use vstd::seq_lib::lemma_seq_concat_contains_all_elements;

    if n < ss.len() - 1 {
        assert(ss.drop_last()[n] == ss[n]);
        lemma_service_called(c, imports, ss.drop_last(), n, x);
    } else {
        assert(ss[n] == ss.last());
    }
}

proof fn lemma_call_called(
    cs: Seq<CallView>,
    imports: Seq<UtilityImportView>,
    ss: Seq<UtilityServiceView>,
    k: int,
    x: SdkCallView,
)
    requires
        0 <= k < cs.len(),
        calls_by_services(cs[k], imports, ss).contains(x),
    ensures
        utility_calls(cs, imports, ss).contains(x),
    decreases cs.len(),
{
    broadcast use vstd::seq_lib::lemma_seq_concat_contains_all_elements;

    if k < cs.len() - 1 {
        assert(cs.drop_last()[k] == cs[k]);
        lemma_call_called(cs.drop_last(), imports, ss, k, x);
    } else {
        assert(cs[k] == cs.last());
    }
}

/// Only Java files are read.
pub proof fn only_java_files_are_read(
    es: Seq<SdkExtractor>,
    f: SourceFile,
    tables: ImportTablesView,
)
    ensures
        f.language != Language::Java ==> found_in_file(es, f, tables) == Err::<
            ExtractionView,
            JavaErrorView,
        >(JavaErrorView::NotJavaFile { path: f.path@ }),
        found_in_file(es, f, tables) is Ok ==> f.language == Language::Java,
{
}

/// The findings of files are those of each of them, one behind the other; the first file that fails
/// decides.
pub proof fn files_are_read_in_turn(
    es: Seq<SdkExtractor>,
    a: Seq<SourceFile>,
    f: SourceFile,
    tables: ImportTablesView,
)
    ensures
        match (found_in_files(es, a, tables), found_in_file(es, f, tables)) {
            (Ok(x), Ok(y)) => found_in_files(es, a.push(f), tables) == Ok::<
                ExtractionView,
                JavaErrorView,
            >(
                ExtractionView {
                    imports: x.imports + y.imports,
                    utility_imports: x.utility_imports + y.utility_imports,
                    calls: x.calls + y.calls,
                    waiters: x.waiters + y.waiters,
                    paginators: x.paginators + y.paginators,
                },
            ),
            (Ok(x), Err(e)) => found_in_files(es, a.push(f), tables) == Err::<
                ExtractionView,
                JavaErrorView,
            >(e),
            (Err(e), _) => found_in_files(es, a.push(f), tables) == Err::<
                ExtractionView,
                JavaErrorView,
            >(e),
        },
        found_in_files(es, Seq::empty(), tables) == Ok::<ExtractionView, JavaErrorView>(
            nothing_found(),
        ),
{
    assert(a.push(f).drop_last() =~= a);
}

/// A space goes behind a small letter that a capital and a further letter or digit follow, and nowhere
/// else.
pub proof fn words_end_before_capitals(s: Seq<char>, n: int)
    requires
        0 <= n < s.len(),
    ensures
        camel_spaced(s, n + 1) == camel_spaced(s, n).push(s[n]) + (if 'a' <= s[n] && s[n] <= 'z' && n
            + 2 < s.len() && 'A' <= s[n + 1] && s[n + 1] <= 'Z' && (('A' <= s[n + 2] && s[n + 2]
            <= 'Z') || ('a' <= s[n + 2] && s[n + 2] <= 'z') || ('0' <= s[n + 2] && s[n + 2] <= '9')) {
            seq![' ']
        } else {
            Seq::empty()
        }),
        camel_spaced(s, 0).len() == 0,
{
    let x = camel_spaced(s, n).push(s[n]);
    assert(x + Seq::<char>::empty() =~= x);
    assert(x + seq![' '] =~= x.push(' '));
}

/// Words are put together one behind the other, each with a capital at its start and small letters
/// behind it.
pub proof fn words_are_capitalized(ws: Seq<Seq<char>>, w: Seq<char>)
    ensures
        all_capitalized(ws.push(w)) == all_capitalized(ws) + capitalized(w),
        all_capitalized(Seq::empty()).len() == 0,
        lower_case(w).len() > 0 ==> capitalized(w) == upper_case_char(lower_case(w)[0])
            + lower_case(w).subrange(1, lower_case(w).len() as int),
        lower_case(w).len() == 0 ==> capitalized(w).len() == 0,
{
    assert(ws.push(w).drop_last() =~= ws);
}

/// A prefix is removed from the start of a name, and a suffix from its end, in whatever case they are
/// written; a name without them stays.
pub proof fn redundant_parts_are_removed(p: Seq<char>, q: Seq<char>, s: Seq<char>)
    requires
        same_but_case(p, q),
    ensures
        without_leading(p + s, q) == s,
        without_trailing(s + p, q) == s,
{
    assert((p + s).subrange(0, q.len() as int) =~= p);
    assert((p + s).subrange(q.len() as int, (p + s).len() as int) =~= s);
    let w = s + p;
    assert(w.subrange(w.len() - q.len(), w.len() as int) =~= p);
    assert(w.subrange(0, w.len() - q.len()) =~= s);
}

/// What is removed from a name is the prefix or the suffix and nothing more.
pub proof fn other_parts_stay(s: Seq<char>, q: Seq<char>)
    ensures
        without_leading(s, q) == s || exists|p: Seq<char>|
            same_but_case(p, q) && s == #[trigger] (p + without_leading(s, q)),
        without_trailing(s, q) == s || exists|p: Seq<char>|
            same_but_case(p, q) && s == #[trigger] (without_trailing(s, q) + p),
        same_but_case(q, q),
{
    let a = without_leading(s, q);
    if a != s {
        let p = s.subrange(0, q.len() as int);
        assert(s =~= p + a);
    }
    let b = without_trailing(s, q);
    if b != s {
        let p = s.subrange(s.len() - q.len(), s.len() as int);
        assert(s =~= b + p);
    }
}

/// The name of the class of a service is its identifier in capitalized words, without `Amazon` and
/// then `Aws` before it and `Service` behind it.
pub proof fn service_classes_are_named(id: Seq<char>)
    ensures
        service_class_name(id) == without_trailing(
            without_leading(without_leading(all_capitalized(words_of(id)), "amazon"@), "aws"@),
            "service"@,
        ),
{
}

/// All four kinds of syntax are looked for, and a paginator or a waiter before a plain call.
pub proof fn every_kind_of_syntax_is_looked_for(
    t: Seq<NodeView>,
    m: MatchView,
    path: Seq<char>,
    tables: ImportTablesView,
)
    ensures
        ({
            let es = crate::java::pipeline::aws_v2_extractors();
            &&& m.captures[0] is Some ==> found_at(es, t, m, path, tables) == found_by(
                SdkExtractor::Import,
                t,
                m,
                path,
                tables,
            )
            &&& m.captures[0] is None && m.captures[1] is Some ==> found_at(es, t, m, path, tables)
                == found_by(SdkExtractor::Paginator, t, m, path, tables)
            &&& m.captures[0] is None && m.captures[1] is None && m.captures[3] is Some
                ==> found_at(es, t, m, path, tables) == found_by(
                SdkExtractor::WaiterCall,
                t,
                m,
                path,
                tables,
            )
            &&& m.captures[0] is None && m.captures[1] is None && m.captures[3] is None
                && m.captures[5] is Some ==> found_at(es, t, m, path, tables) == found_by(
                SdkExtractor::MethodCall,
                t,
                m,
                path,
                tables,
            )
        }),
{
    labels_have_their_places(m);
    let es = crate::java::pipeline::aws_v2_extractors();
    assert(es.len() == 4);
    assert(es[0].label() == "IMPORT_MARKER"@ && es[1].label() == "PAGINATOR_METHOD"@);
    assert(es[2].label() == "WAIT_METHOD"@ && es[3].label() == "MC_OBJ"@);
    let i: int = if m.captures[0] is Some {
        0
    } else if m.captures[1] is Some {
        1
    } else if m.captures[3] is Some {
        2
    } else if m.captures[5] is Some {
        3
    } else {
        4
    };
    matches_count_once(es, t, m, path, tables, i);
}

/// The calls of files are all that are matched, in the order of calls.
pub proof fn matched_calls_are_sorted(
    x: ExtractionView,
    index: crate::java::services::ServiceModelIndex,
    model: crate::java::utilities::JavaUtilitiesModel,
    i: int,
    j: int,
)
    ensures
        crate::java::pipeline::sorted_matches(x, index, model).to_multiset()
            == crate::java::matcher::all_matched(x, index@, model@).to_multiset(),
        0 <= i < j < crate::java::pipeline::sorted_matches(x, index, model).len()
            ==> !crate::call_order::call_lt(
            crate::java::pipeline::sorted_matches(x, index, model)[j],
            crate::java::pipeline::sorted_matches(x, index, model)[i],
        ),
{
    let s = crate::java::matcher::all_matched(x, index@, model@);
    let lt = crate::order::order_of::<crate::sdk::SdkMethodCall>();
    crate::order::sorting_keeps_the_items(s, lt);
    crate::call_order::sorted_calls_are_in_order(s);
    let r = crate::java::pipeline::sorted_matches(x, index, model);
    if 0 <= i < j < r.len() {
        assert(!lt(r[j], r[i]));
    }
}

/// A file that cannot be read is named in the error, with the reason.
pub proof fn errors_name_the_file(
    x: crate::errors::ExtractorError,
    path: Seq<char>,
    message: Seq<char>,
)
    ensures
        crate::java::pipeline::is_java_error(x, JavaErrorView::NotJavaFile { path }) ==> (x
            matches crate::errors::ExtractorError::MethodExtraction {
            language,
            path: p,
            message: m,
            source,
        } && language@ == "java"@ && p@ == path && m@ == "Source file is not Java: "@ + path
            && source is None),
        crate::java::pipeline::is_java_error(x, JavaErrorView::ParseError { path, message }) ==> (x
            matches crate::errors::ExtractorError::MethodExtraction {
            language,
            path: p,
            message: m,
            source,
        } && language@ == "java"@ && p@ == path && m@ == message && source is None),
{
}

/// Words are cut at other characters, around versions, before capitals and behind digits.
pub proof fn words_are_cut_in_steps(name: Seq<char>)
    ensures
        ({
            let a = regex_replaced("[^A-Za-z0-9]+"@, name, " "@);
            let b = regex_replaced("([^a-z]{2,})v([0-9]+)"@, a, "$1 v$2 "@);
            let c = regex_replaced("([^A-Z]{2,})V([0-9]+)"@, b, "$1 V$2 "@);
            let d = camel_spaced(c, c.len() as int);
            let e = regex_replaced("([A-Z]+)([A-Z][a-z])"@, d, "$1 $2"@);
            let f = regex_replaced("([0-9])([a-zA-Z])"@, e, "$1 $2"@);
            let g = regex_replaced(" +"@, f, " "@);
            words_of(name) == split_on(crate::text::trimmed(g), ' ')
        }),
{
}

/// Of an ASCII word the first letter becomes a capital and the others small.
pub proof fn ascii_words_are_capitalized(w: Seq<char>, ws: Seq<Seq<char>>, i: int)
    requires
        0 <= i < w.len(),
    ensures
        ascii_capitalized(w).len() == w.len(),
        i == 0 ==> ascii_capitalized(w)[i] == ascii_upper(ascii_lower(w[i])),
        i > 0 ==> ascii_capitalized(w)[i] == ascii_lower(w[i]),
        all_ascii_capitalized(ws.push(w)) == all_ascii_capitalized(ws) + ascii_capitalized(w),
        all_ascii_capitalized(Seq::empty()).len() == 0,
{
    assert(ws.push(w).drop_last() =~= ws);
}

/// ASCII letters change their case, and other characters stay.
pub proof fn letters_change_their_case(c: char)
    ensures
        'A' <= c && c <= 'Z' ==> ascii_lower(c) as u32 == c as u32 + 32,
        !('A' <= c && c <= 'Z') ==> ascii_lower(c) == c,
        'a' <= c && c <= 'z' ==> ascii_upper(c) as u32 == c as u32 - 32,
        !('a' <= c && c <= 'z') ==> ascii_upper(c) == c,
{
    assert('A' as u32 == 65 && 'Z' as u32 == 90 && 'a' as u32 == 97 && 'z' as u32 == 122);
}

/// An empty literal has an empty value.
pub proof fn empty_literals_are_empty(n: NodeView)
    ensures
        n.kind == "string_literal"@ && n.text == seq!['"', '"'] ==> literal_value(n)
            == ParameterValueView::Resolved(Seq::empty()),
{
    let a = seq!['"', '"'];
    characters_around_are_trimmed(a, seq!['x'], Seq::empty(), '"');
    assert(crate::text::trimmed_of(a, '"') =~= Seq::<char>::empty());
}

/// What is none of the literals is not resolved.
pub proof fn other_arguments_are_not_resolved(n: NodeView)
    requires
        n.kind != "string_literal"@,
        n.kind != "character_literal"@,
        n.kind != "decimal_integer_literal"@,
        n.kind != "decimal_floating_point_literal"@,
        n.kind != "hex_integer_literal"@,
        n.kind != "octal_integer_literal"@,
        n.kind != "binary_integer_literal"@,
        n.kind != "true"@,
        n.kind != "false"@,
        n.kind != "null_literal"@,
    ensures
        literal_value(n) == ParameterValueView::Unresolved(n.text),
{
}

} // verus!
