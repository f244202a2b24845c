//! What holds of the SDK calls behind imported names and called methods.

use vstd::prelude::*;
use vstd::seq_lib::{lemma_seq_concat_contains_all_elements, lemma_seq_contains_after_push};

use crate::casing::upper_case_char;
use crate::javascript::shared::{
    all_sublibraries, call_at, call_of_method, calls_for, calls_of_imports, calls_of_kind,
    calls_of_methods, calls_of_name, calls_of_namespace, calls_of_sublibrary, calls_of_uses,
    expanded_names, expansion, handled_names, import_calls, is_lib, is_of_kind, keyword_parameters,
    library_calls, library_calls_of_classes, library_calls_of_imports, library_calls_of_sublibrary,
    names_found, names_of_imports, names_of_kind, names_of_sublibrary, namespace_found,
    namespace_of, operation_in, pascal, service_of, table_of, usage_of, ImportKind,
    JsV3LibrariesMapping, NameRule,
};
use crate::javascript::types::{
    CommandUsage, ImportInfo, JavaScriptScanResults, MethodCall, NamespaceUsages, ScanUsages,
    SublibraryInfo, UsageView,
};
use crate::sdk::{MetadataView, ParameterValueView, ParameterView, SdkCallView};

verus! {

/// The service of a client library is all that stands behind `client-`, and that of an auxiliary
/// library all that stands behind `lib-`. Hyphens in it do not matter.
pub proof fn services_follow_the_prefix(s: Seq<char>)
    ensures
        service_of("client-"@ + s) == Some(s),
        service_of("lib-"@ + s) == Some(s),
        is_lib("lib-"@ + s),
        !is_lib("client-"@ + s),
{
    reveal_strlit("client-");
    reveal_strlit("lib-");
    let c = "client-"@ + s;
    let l = "lib-"@ + s;
    assert(c.subrange(0, "client-"@.len() as int) =~= "client-"@);
    assert(c.subrange("client-"@.len() as int, c.len() as int) =~= s);
    assert(l.subrange(0, "lib-"@.len() as int) =~= "lib-"@);
    assert(l.subrange("lib-"@.len() as int, l.len() as int) =~= s);
    assert(c[0] == 'c' && c[1] == 'l' && "lib-"@[0] == 'l');
    assert(l[0] == 'l' && "client-"@[0] == 'c');
    if is_lib(c) {
        assert(c.subrange(0, "lib-"@.len() as int)[0] == c[0]);
    }
    if l.len() >= "client-"@.len() {
        assert(l.subrange(0, "client-"@.len() as int)[0] == l[0]);
    }
}

/// A library that is neither a client nor an auxiliary one has no service.
pub proof fn other_libraries_have_no_service(library: Seq<char>)
    ensures
        match service_of(library) {
            Some(s) => library == "client-"@ + s || library == "lib-"@ + s,
            None => forall|s: Seq<char>|
                library != #[trigger] ("client-"@ + s) && library != "lib-"@ + s,
        },
        is_lib(library) == exists|s: Seq<char>| library == #[trigger] ("lib-"@ + s),
{
    if service_of(library) is Some {
        let s = service_of(library)->0;
        assert(library =~= "client-"@ + s || library =~= "lib-"@ + s);
    } else {
        assert forall|s: Seq<char>| library != #[trigger] ("client-"@ + s) && library != "lib-"@
            + s by {
            services_follow_the_prefix(s);
        }
    }
    if is_lib(library) {
        let s = library.subrange("lib-"@.len() as int, library.len() as int);
        assert(library =~= "lib-"@ + s);
    }
    assert forall|s: Seq<char>| library == #[trigger] ("lib-"@ + s) implies is_lib(library) by {
        services_follow_the_prefix(s);
    }
}

/// A command is named after its operation.
pub proof fn commands_name_their_operation(op: Seq<char>, rule: NameRule)
    ensures
        operation_in(rule, op + "Command"@) == Some(op),
        is_of_kind(ImportKind::Command, op + "Command"@),
{
    let name = op + "Command"@;
    let n = "Command"@.len();
    assert(name.subrange(name.len() - n, name.len() as int) =~= "Command"@);
    assert(name.subrange(0, name.len() - n) =~= op);
}

/// A name without `Command` behind it is that of no command. As the name of a paginator it names
/// what stands behind `paginate`, or itself.
pub proof fn other_names_name_themselves(name: Seq<char>)
    requires
        forall|op: Seq<char>| name != #[trigger] (op + "Command"@),
    ensures
        !is_of_kind(ImportKind::Command, name),
        operation_in(NameRule::Command, name) is None,
        forall|op: Seq<char>|
            name == #[trigger] ("paginate"@ + op) ==> operation_in(NameRule::Paginate, name)
                == Some(op),
        (forall|op: Seq<char>| name != #[trigger] ("paginate"@ + op)) ==> operation_in(
            NameRule::Paginate,
            name,
        ) == Some(name),
{
    let n = "Command"@.len();
    if is_of_kind(ImportKind::Command, name) {
        assert(name =~= name.subrange(0, name.len() - n) + "Command"@);
        assert(false);
    }
    let p = "paginate"@.len() as int;
    assert forall|op: Seq<char>| name == #[trigger] ("paginate"@ + op) implies operation_in(
        NameRule::Paginate,
        name,
    ) == Some(op) by {
        assert(name.subrange(0, p) =~= "paginate"@);
        assert(name.subrange(p, name.len() as int) =~= op);
    }
    if forall|op: Seq<char>| name != #[trigger] ("paginate"@ + op) {
        if p <= name.len() && name.subrange(0, p) == "paginate"@ {
            assert(name =~= "paginate"@ + name.subrange(p, name.len() as int));
        }
    }
}

/// Which names are of which kind.
pub proof fn kinds_tell_names_apart(name: Seq<char>)
    ensures
        is_of_kind(ImportKind::Command, name) == exists|op: Seq<char>|
            name == #[trigger] (op + "Command"@),
        is_of_kind(ImportKind::Paginate, name) == exists|op: Seq<char>|
            name == #[trigger] ("paginate"@ + op),
        is_of_kind(ImportKind::Waiter, name) == exists|op: Seq<char>|
            name == #[trigger] ("waitUntil"@ + op),
        is_of_kind(ImportKind::CommandInput, name) == exists|op: Seq<char>|
            name == #[trigger] (op + "CommandInput"@),
{
    lemma_prefix_is(name, "paginate"@);
    lemma_prefix_is(name, "waitUntil"@);
    lemma_suffix_is(name, "Command"@);
    lemma_suffix_is(name, "CommandInput"@);
}

proof fn lemma_prefix_is(name: Seq<char>, p: Seq<char>)
    ensures
        (p.len() <= name.len() && name.subrange(0, p.len() as int) == p) == exists|op: Seq<char>|
            name == #[trigger] (p + op),
{
    if p.len() <= name.len() && name.subrange(0, p.len() as int) == p {
        assert(name =~= p + name.subrange(p.len() as int, name.len() as int));
    }
    assert forall|op: Seq<char>| name == #[trigger] (p + op) implies p.len() <= name.len()
        && name.subrange(0, p.len() as int) == p by {
        assert(name.subrange(0, p.len() as int) =~= p);
    }
}

proof fn lemma_suffix_is(name: Seq<char>, p: Seq<char>)
    ensures
        (p.len() <= name.len() && name.subrange(name.len() - p.len(), name.len() as int) == p)
            == exists|op: Seq<char>| name == #[trigger] (op + p),
{
    if p.len() <= name.len() && name.subrange(name.len() - p.len(), name.len() as int) == p {
        assert(name =~= name.subrange(0, name.len() - p.len()) + p);
    }
    assert forall|op: Seq<char>| name == #[trigger] (op + p) implies p.len() <= name.len()
        && name.subrange(name.len() - p.len(), name.len() as int) == p by {
        assert(name.subrange(name.len() - p.len(), name.len() as int) =~= p);
    }
}

/// A call has the name of its operation, its one service, and the text, the place and the arguments
/// of its use.
pub proof fn calls_carry_their_use(operation: Seq<char>, service: Seq<char>, usage: UsageView)
    ensures
        call_at(operation, service, usage) == (SdkCallView {
            name: operation,
            possible_services: seq![service],
            metadata: Some(
                MetadataView {
                    expr: usage.text,
                    location: usage.location,
                    parameters: usage.parameters,
                    receiver: None,
                },
            ),
        }),
{
}

/// An imported name is used where the file uses its local name; where no use is found, the import
/// itself counts, without arguments.
pub proof fn uses_are_found_by_local_name(table: Map<Seq<char>, CommandUsage>, i: ImportInfo)
    ensures
        table.contains_key(i.local_name@) ==> usage_of(table, i) == table[i.local_name@]@,
        !table.contains_key(i.local_name@) ==> usage_of(table, i).text == i.statement@ && usage_of(
            table,
            i,
        ).location == i.location@ && usage_of(table, i).parameters.len() == 0,
{
}

/// Names are mapped one by one.
pub proof fn names_are_mapped_one_by_one(
    a: Seq<Seq<char>>,
    b: Seq<Seq<char>>,
    rule: NameRule,
    service: Seq<char>,
    usage: UsageView,
)
    ensures
        calls_for(a + b, rule, service, usage) == calls_for(a, rule, service, usage) + calls_for(
            b,
            rule,
            service,
            usage,
        ),
    decreases b.len(),
{
    let x = calls_for(a, rule, service, usage);
    if b.len() == 0 {
        assert(a + b =~= a);
        assert(x + calls_for(b, rule, service, usage) =~= x);
    } else {
        let t = b.drop_last();
        names_are_mapped_one_by_one(a, t, rule, service, usage);
        assert((a + b).drop_last() =~= a + t);
        assert((a + b).last() == b.last());
        assert(calls_for(a + b, rule, service, usage) =~= x + calls_for(b, rule, service, usage));
    }
}

proof fn lemma_one_name(op: Seq<char>, name: Seq<char>, rule: NameRule, service: Seq<char>, usage: UsageView)
    requires
        operation_in(rule, name) == Some(op),
    ensures
        calls_for(seq![name], rule, service, usage) == seq![call_at(op, service, usage)],
{
    let s = seq![name];
    assert(s.drop_last() =~= Seq::<Seq<char>>::empty());
    assert(calls_for(s.drop_last(), rule, service, usage) =~= Seq::<SdkCallView>::empty());
    assert(calls_for(s, rule, service, usage) =~= seq![call_at(op, service, usage)]);
}

/// An imported command is one call, of its operation.
pub proof fn commands_are_single_calls(
    lib: bool,
    service: Seq<char>,
    op: Seq<char>,
    usage: UsageView,
    mappings: Option<JsV3LibrariesMapping>,
)
    requires
        !lib || mappings is None || expansion(mappings->0, service, op + "Command"@) is None,
    ensures
        calls_of_name(ImportKind::Command, lib, service, op + "Command"@, usage, mappings)
            == seq![call_at(op, service, usage)],
{
    commands_name_their_operation(op, NameRule::Command);
    lemma_one_name(op, op + "Command"@, NameRule::Command, service, usage);
}

/// An imported paginator is one call, of the operation that it goes through.
pub proof fn paginators_are_single_calls(
    lib: bool,
    service: Seq<char>,
    op: Seq<char>,
    usage: UsageView,
    mappings: Option<JsV3LibrariesMapping>,
)
    requires
        !lib || mappings is None || expansion(mappings->0, service, "paginate"@ + op) is None,
        forall|x: Seq<char>| "paginate"@ + op != #[trigger] (x + "Command"@),
    ensures
        calls_of_name(ImportKind::Paginate, lib, service, "paginate"@ + op, usage, mappings)
            == seq![call_at(op, service, usage)],
{
    other_names_name_themselves("paginate"@ + op);
    lemma_one_name(op, "paginate"@ + op, NameRule::Paginate, service, usage);
}

/// An imported waiter is one call, of what it waits for.
pub proof fn waiters_are_single_calls(
    lib: bool,
    service: Seq<char>,
    op: Seq<char>,
    usage: UsageView,
    mappings: Option<JsV3LibrariesMapping>,
)
    ensures
        calls_of_name(ImportKind::Waiter, lib, service, "waitUntil"@ + op, usage, mappings)
            == seq![call_at(op, service, usage)],
{
    let name = "waitUntil"@ + op;
    let p = "waitUntil"@.len() as int;
    assert(name.subrange(0, p) =~= "waitUntil"@);
    assert(name.subrange(p, name.len() as int) =~= op);
}

/// A type of inputs is one call of its operation, without arguments.
pub proof fn input_types_are_single_calls(
    lib: bool,
    service: Seq<char>,
    op: Seq<char>,
    usage: UsageView,
    mappings: Option<JsV3LibrariesMapping>,
)
    ensures
        calls_of_name(ImportKind::CommandInput, lib, service, op + "CommandInput"@, usage, mappings)
            == seq![
            SdkCallView {
                name: op,
                possible_services: seq![service],
                metadata: Some(
                    MetadataView {
                        expr: usage.text,
                        location: usage.location,
                        parameters: Seq::empty(),
                        receiver: None,
                    },
                ),
            },
        ],
{
    let name = op + "CommandInput"@;
    let n = "CommandInput"@.len();
    assert(name.subrange(name.len() - n, name.len() as int) =~= "CommandInput"@);
    assert(name.subrange(0, name.len() - n) =~= op);
}

/// A name of an auxiliary library stands for the names that the mapping has for it, and a name
/// that it does not have, or of a client library, for itself.
pub proof fn only_auxiliary_names_are_expanded(
    service: Seq<char>,
    name: Seq<char>,
    m: JsV3LibrariesMapping,
)
    ensures
        expanded_names(false, service, name, Some(m)) == seq![name],
        expanded_names(true, service, name, None) == seq![name],
        expanded_names(false, service, name, None) == seq![name],
        ({
            let libraries = m.library_operation_expansions@;
            if libraries.contains_key(service) && libraries[service]@.contains_key(name) {
                expanded_names(true, service, name, Some(m)).len()
                    == libraries[service]@[name]@.len() && forall|i: int|
                    0 <= i < libraries[service]@[name]@.len() ==> #[trigger] expanded_names(
                        true,
                        service,
                        name,
                        Some(m),
                    )[i] == libraries[service]@[name]@[i]@
            } else {
                expanded_names(true, service, name, Some(m)) == seq![name]
            }
        }),
        expansion(m, service, name) is Some <==> m.library_operation_expansions@.contains_key(
            service,
        ) && m.library_operation_expansions@[service]@.contains_key(name),
        expansion(m, service, name) is Some ==> expanded_names(true, service, name, Some(m))
            == expansion(m, service, name)->0,
{
}

/// Each imported name of a command of an auxiliary library gives a call for every command that it
/// stands for.
pub proof fn expanded_commands_are_called(
    service: Seq<char>,
    name: Seq<char>,
    usage: UsageView,
    m: JsV3LibrariesMapping,
    names: Seq<Seq<char>>,
    k: int,
    op: Seq<char>,
)
    requires
        expansion(m, service, name) == Some(names),
        0 <= k < names.len(),
        names[k] == op + "Command"@,
    ensures
        calls_of_name(ImportKind::Command, true, service, name, usage, Some(m)).contains(
            call_at(op, service, usage),
        ),
{
    lemma_calls_for_has(names, NameRule::Command, service, usage, k, op);
}

proof fn lemma_calls_for_has(
    names: Seq<Seq<char>>,
    rule: NameRule,
    service: Seq<char>,
    usage: UsageView,
    k: int,
    op: Seq<char>,
)
    requires
        0 <= k < names.len(),
        names[k] == op + "Command"@,
    ensures
        calls_for(names, rule, service, usage).contains(call_at(op, service, usage)),
    decreases names.len(),
{
    broadcast use lemma_seq_contains_after_push;

    let t = names.drop_last();
    commands_name_their_operation(op, rule);
    if k < t.len() {
        lemma_calls_for_has(t, rule, service, usage, k, op);
    } else {
        assert(names.last() == names[k]);
    }
}

/// Imports are mapped one by one, in their order.
pub proof fn imports_are_mapped_one_by_one(
    kind: ImportKind,
    lib: bool,
    service: Seq<char>,
    a: Seq<ImportInfo>,
    i: ImportInfo,
    b: Seq<ImportInfo>,
    u: ScanUsages,
    mappings: Option<JsV3LibrariesMapping>,
)
    ensures
        calls_of_imports(kind, lib, service, a + seq![i] + b, u, mappings) == calls_of_imports(
            kind,
            lib,
            service,
            a,
            u,
            mappings,
        ) + (if is_of_kind(kind, i.original_name@) {
            calls_of_name(
                kind,
                lib,
                service,
                i.original_name@,
                usage_of(table_of(kind, u), i),
                mappings,
            )
        } else {
            Seq::empty()
        }) + calls_of_imports(kind, lib, service, b, u, mappings),
    decreases b.len(),
{
    let s = a + seq![i] + b;
    let all = calls_of_imports(kind, lib, service, s, u, mappings);
    let x = calls_of_imports(kind, lib, service, a, u, mappings);
    let own = if is_of_kind(kind, i.original_name@) {
        calls_of_name(
            kind,
            lib,
            service,
            i.original_name@,
            usage_of(table_of(kind, u), i),
            mappings,
        )
    } else {
        Seq::empty()
    };
    if b.len() == 0 {
        assert(s.drop_last() =~= a);
        assert(s.last() == i);
        assert(all =~= x + own);
        assert(x + own + calls_of_imports(kind, lib, service, b, u, mappings) =~= x + own);
    } else {
        let t = b.drop_last();
        imports_are_mapped_one_by_one(kind, lib, service, a, i, t, u, mappings);
        assert(s.drop_last() =~= a + seq![i] + t);
        assert(s.last() == b.last());
        assert(all =~= x + own + calls_of_imports(kind, lib, service, b, u, mappings));
    }
}

/// Where names of a kind are used is looked up among the uses of that kind.
pub proof fn kinds_have_their_uses(u: ScanUsages, namespace: Seq<char>)
    ensures
        table_of(ImportKind::Command, u) == u.instantiations@,
        table_of(ImportKind::Paginate, u) == u.paginators@,
        table_of(ImportKind::Waiter, u) == u.waiters@,
        table_of(ImportKind::CommandInput, u) == u.command_inputs@,
        namespace_of(ImportKind::CommandInput, u, namespace).len() == 0,
        namespace_of(ImportKind::Command, u, namespace) == namespace_found(
            u.namespace_instantiations@,
            namespace,
            "Command"@,
        ),
        namespace_of(ImportKind::Paginate, u, namespace) == namespace_found(
            u.namespace_paginators@,
            namespace,
            "paginate"@,
        ),
        namespace_of(ImportKind::Waiter, u, namespace) == namespace_found(
            u.namespace_waiters@,
            namespace,
            "waitUntil"@,
        ),
{
}

/// What was found under a name and a form is what the first entry for both has.
pub proof fn first_entry_is_found(
    v: Seq<NamespaceUsages>,
    namespace: Seq<char>,
    form: Seq<char>,
    i: int,
)
    requires
        0 <= i <= v.len(),
        forall|j: int|
            0 <= j < i ==> (#[trigger] v[j]).namespace@ != namespace || v[j].form@ != form,
        i < v.len() ==> v[i].namespace@ == namespace && v[i].form@ == form,
    ensures
        i < v.len() ==> namespace_found(v, namespace, form) == v[i].found@,
        i == v.len() ==> namespace_found(v, namespace, form).len() == 0,
    decreases v.len(),
{
    if v.len() > 0 && i > 0 {
        let t = v.subrange(1, v.len() as int);
        assert(v[0].namespace@ != namespace || v[0].form@ != form);
        assert forall|j: int| 0 <= j < i - 1 implies (#[trigger] t[j]).namespace@ != namespace
            || t[j].form@ != form by {
            assert(t[j] == v[j + 1]);
        }
        first_entry_is_found(t, namespace, form, i - 1);
    }
}

/// Uses under the name of a library are mapped one by one, in their order.
pub proof fn uses_are_mapped_one_by_one(
    kind: ImportKind,
    lib: bool,
    service: Seq<char>,
    a: Seq<(String, CommandUsage)>,
    f: (String, CommandUsage),
    b: Seq<(String, CommandUsage)>,
    mappings: Option<JsV3LibrariesMapping>,
)
    ensures
        calls_of_namespace(kind, lib, service, a + seq![f] + b, mappings) == calls_of_namespace(
            kind,
            lib,
            service,
            a,
            mappings,
        ) + calls_of_name(kind, lib, service, f.0@, f.1@, mappings) + calls_of_namespace(
            kind,
            lib,
            service,
            b,
            mappings,
        ),
    decreases b.len(),
{
    let s = a + seq![f] + b;
    let all = calls_of_namespace(kind, lib, service, s, mappings);
    let x = calls_of_namespace(kind, lib, service, a, mappings);
    let own = calls_of_name(kind, lib, service, f.0@, f.1@, mappings);
    if b.len() == 0 {
        assert(s.drop_last() =~= a);
        assert(s.last() == f);
        assert(x + own + calls_of_namespace(kind, lib, service, b, mappings) =~= x + own);
    } else {
        let t = b.drop_last();
        uses_are_mapped_one_by_one(kind, lib, service, a, f, t, mappings);
        assert(s.drop_last() =~= a + seq![f] + t);
        assert(s.last() == b.last());
        assert(all =~= x + own + calls_of_namespace(kind, lib, service, b, mappings));
    }
}

/// Libraries are mapped one by one, in their order.
pub proof fn libraries_are_mapped_one_by_one(
    kind: ImportKind,
    a: Seq<SublibraryInfo>,
    s: SublibraryInfo,
    b: Seq<SublibraryInfo>,
    u: ScanUsages,
    mappings: Option<JsV3LibrariesMapping>,
)
    ensures
        calls_of_kind(kind, a + seq![s] + b, u, mappings) == calls_of_kind(kind, a, u, mappings)
            + calls_of_sublibrary(kind, s, u, mappings) + calls_of_kind(kind, b, u, mappings),
    decreases b.len(),
{
    let v = a + seq![s] + b;
    let x = calls_of_kind(kind, a, u, mappings);
    let own = calls_of_sublibrary(kind, s, u, mappings);
    if b.len() == 0 {
        assert(v.drop_last() =~= a);
        assert(v.last() == s);
        assert(x + own + calls_of_kind(kind, b, u, mappings) =~= x + own);
    } else {
        let t = b.drop_last();
        libraries_are_mapped_one_by_one(kind, a, s, t, u, mappings);
        assert(v.drop_last() =~= a + seq![s] + t);
        assert(v.last() == b.last());
        assert(calls_of_kind(kind, v, u, mappings) =~= x + own + calls_of_kind(
            kind,
            b,
            u,
            mappings,
        ));
    }
}

/// The calls of a library are those of its imported names and, where the whole library is imported,
/// those of the names that are used under its name.
pub proof fn libraries_call_what_they_name(
    kind: ImportKind,
    s: SublibraryInfo,
    service: Seq<char>,
    lib: bool,
    u: ScanUsages,
    mappings: Option<JsV3LibrariesMapping>,
)
    requires
        s.sublibrary@ == (if lib {
            "lib-"@
        } else {
            "client-"@
        }) + service,
    ensures
        s.wildcard_namespace is None ==> calls_of_sublibrary(kind, s, u, mappings)
            == calls_of_imports(kind, lib, service, s.imports@, u, mappings),
        s.wildcard_namespace matches Some(n) ==> calls_of_sublibrary(kind, s, u, mappings)
            == calls_of_imports(kind, lib, service, s.imports@, u, mappings) + calls_of_namespace(
            kind,
            lib,
            service,
            namespace_of(kind, u, n@),
            mappings,
        ),
{
    services_follow_the_prefix(service);
}

proof fn lemma_import_is_called(
    kind: ImportKind,
    lib: bool,
    service: Seq<char>,
    imports: Seq<ImportInfo>,
    u: ScanUsages,
    mappings: Option<JsV3LibrariesMapping>,
    k: int,
    c: SdkCallView,
)
    requires
        0 <= k < imports.len(),
        is_of_kind(kind, imports[k].original_name@),
        calls_of_name(
            kind,
            lib,
            service,
            imports[k].original_name@,
            usage_of(table_of(kind, u), imports[k]),
            mappings,
        ).contains(c),
    ensures
        calls_of_imports(kind, lib, service, imports, u, mappings).contains(c),
{
    broadcast use lemma_seq_concat_contains_all_elements;

    let a = imports.subrange(0, k);
    let b = imports.subrange(k + 1, imports.len() as int);
    assert(imports =~= a + seq![imports[k]] + b);
    imports_are_mapped_one_by_one(kind, lib, service, a, imports[k], b, u, mappings);
}

/// A library of the file, however it is imported, has its calls among those of the file.
pub proof fn every_library_counts(
    kind: ImportKind,
    scan: JavaScriptScanResults,
    s: SublibraryInfo,
    u: ScanUsages,
    mappings: Option<JsV3LibrariesMapping>,
    c: SdkCallView,
)
    requires
        scan.imports@.contains(s) || scan.requires@.contains(s),
        calls_of_sublibrary(kind, s, u, mappings).contains(c),
    ensures
        import_calls(scan, u, mappings).contains(c),
{
    broadcast use lemma_seq_concat_contains_all_elements;

    let subs = all_sublibraries(scan);
    assert(subs.contains(s));
    let k = choose|k: int| 0 <= k < subs.len() && subs[k] == s;
    let a = subs.subrange(0, k);
    let b = subs.subrange(k + 1, subs.len() as int);
    assert(subs =~= a + seq![s] + b);
    libraries_are_mapped_one_by_one(kind, a, s, b, u, mappings);
    assert(calls_of_kind(kind, subs, u, mappings).contains(c));
}

/// A command that a file imports from a client library is called: the call has the name of the
/// operation and the service of the library, at the place where the file uses the command, or else
/// imports it.
pub proof fn imported_commands_are_called(
    scan: JavaScriptScanResults,
    s: SublibraryInfo,
    k: int,
    service: Seq<char>,
    op: Seq<char>,
    u: ScanUsages,
    mappings: Option<JsV3LibrariesMapping>,
)
    requires
        scan.imports@.contains(s) || scan.requires@.contains(s),
        s.sublibrary@ == "client-"@ + service,
        0 <= k < s.imports@.len(),
        s.imports@[k].original_name@ == op + "Command"@,
    ensures
        import_calls(scan, u, mappings).contains(
            call_at(op, service, usage_of(u.instantiations@, s.imports@[k])),
        ),
{
    broadcast use lemma_seq_concat_contains_all_elements;

    let i = s.imports@[k];
    let usage = usage_of(u.instantiations@, i);
    let c = call_at(op, service, usage);
    commands_name_their_operation(op, NameRule::Command);
    commands_are_single_calls(false, service, op, usage, mappings);
    assert(seq![c].contains(c)) by {
        assert(seq![c][0] == c);
    }
    lemma_import_is_called(
        ImportKind::Command,
        false,
        service,
        s.imports@,
        u,
        mappings,
        k,
        c,
    );
    libraries_call_what_they_name(ImportKind::Command, s, service, false, u, mappings);
    every_library_counts(ImportKind::Command, scan, s, u, mappings, c);
}

/// A paginator that a file imports from a client library is called.
pub proof fn imported_paginators_are_called(
    scan: JavaScriptScanResults,
    s: SublibraryInfo,
    k: int,
    service: Seq<char>,
    op: Seq<char>,
    u: ScanUsages,
    mappings: Option<JsV3LibrariesMapping>,
)
    requires
        scan.imports@.contains(s) || scan.requires@.contains(s),
        s.sublibrary@ == "client-"@ + service,
        0 <= k < s.imports@.len(),
        s.imports@[k].original_name@ == "paginate"@ + op,
        forall|x: Seq<char>| "paginate"@ + op != #[trigger] (x + "Command"@),
    ensures
        import_calls(scan, u, mappings).contains(
            call_at(op, service, usage_of(u.paginators@, s.imports@[k])),
        ),
{
    broadcast use lemma_seq_concat_contains_all_elements;

    let i = s.imports@[k];
    let usage = usage_of(u.paginators@, i);
    let c = call_at(op, service, usage);
    kinds_tell_names_apart(i.original_name@);
    paginators_are_single_calls(false, service, op, usage, mappings);
    assert(seq![c].contains(c)) by {
        assert(seq![c][0] == c);
    }
    lemma_import_is_called(
        ImportKind::Paginate,
        false,
        service,
        s.imports@,
        u,
        mappings,
        k,
        c,
    );
    libraries_call_what_they_name(ImportKind::Paginate, s, service, false, u, mappings);
    every_library_counts(ImportKind::Paginate, scan, s, u, mappings, c);
}

/// A waiter that a file imports is called.
pub proof fn imported_waiters_are_called(
    scan: JavaScriptScanResults,
    s: SublibraryInfo,
    k: int,
    service: Seq<char>,
    op: Seq<char>,
    u: ScanUsages,
    mappings: Option<JsV3LibrariesMapping>,
)
    requires
        scan.imports@.contains(s) || scan.requires@.contains(s),
        s.sublibrary@ == "client-"@ + service || s.sublibrary@ == "lib-"@ + service,
        0 <= k < s.imports@.len(),
        s.imports@[k].original_name@ == "waitUntil"@ + op,
    ensures
        import_calls(scan, u, mappings).contains(
            call_at(op, service, usage_of(u.waiters@, s.imports@[k])),
        ),
{
    broadcast use lemma_seq_concat_contains_all_elements;

    let i = s.imports@[k];
    let usage = usage_of(u.waiters@, i);
    let c = call_at(op, service, usage);
    let lib = s.sublibrary@ == "lib-"@ + service;
    kinds_tell_names_apart(i.original_name@);
    waiters_are_single_calls(lib, service, op, usage, mappings);
    assert(seq![c].contains(c)) by {
        assert(seq![c][0] == c);
    }
    lemma_import_is_called(ImportKind::Waiter, lib, service, s.imports@, u, mappings, k, c);
    libraries_call_what_they_name(ImportKind::Waiter, s, service, lib, u, mappings);
    every_library_counts(ImportKind::Waiter, scan, s, u, mappings, c);
}

/// A type of inputs that a file imports stands for a call of its operation without arguments.
pub proof fn imported_input_types_are_called(
    scan: JavaScriptScanResults,
    s: SublibraryInfo,
    k: int,
    service: Seq<char>,
    op: Seq<char>,
    u: ScanUsages,
    mappings: Option<JsV3LibrariesMapping>,
)
    requires
        scan.imports@.contains(s) || scan.requires@.contains(s),
        s.sublibrary@ == "client-"@ + service || s.sublibrary@ == "lib-"@ + service,
        0 <= k < s.imports@.len(),
        s.imports@[k].original_name@ == op + "CommandInput"@,
    ensures
        import_calls(scan, u, mappings).contains(
            call_at(
                op,
                service,
                UsageView {
                    parameters: Seq::empty(),
                    ..usage_of(u.command_inputs@, s.imports@[k])
                },
            ),
        ),
{
    broadcast use lemma_seq_concat_contains_all_elements;

    let i = s.imports@[k];
    let usage = usage_of(u.command_inputs@, i);
    let c = call_at(op, service, UsageView { parameters: Seq::empty(), ..usage });
    let lib = s.sublibrary@ == "lib-"@ + service;
    kinds_tell_names_apart(i.original_name@);
    input_types_are_single_calls(lib, service, op, usage, mappings);
    assert(seq![c].contains(c)) by {
        assert(seq![c][0] == c);
    }
    lemma_import_is_called(ImportKind::CommandInput, lib, service, s.imports@, u, mappings, k, c);
    libraries_call_what_they_name(ImportKind::CommandInput, s, service, lib, u, mappings);
    every_library_counts(ImportKind::CommandInput, scan, s, u, mappings, c);
}

/// The calls of a file are those of the four kinds of names, then those of other classes of auxiliary
/// libraries; without mappings there are no others. Imports count before requires.
pub proof fn files_call_what_they_import(
    scan: JavaScriptScanResults,
    u: ScanUsages,
    m: JsV3LibrariesMapping,
)
    ensures
        ({
            let subs = scan.imports@ + scan.requires@;
            let none: Option<JsV3LibrariesMapping> = None;
            import_calls(scan, u, none) == calls_of_kind(ImportKind::Command, subs, u, none)
                + calls_of_kind(ImportKind::Paginate, subs, u, none) + calls_of_kind(
                ImportKind::Waiter,
                subs,
                u,
                none,
            ) + calls_of_kind(ImportKind::CommandInput, subs, u, none)
        }),
        ({
            let subs = scan.imports@ + scan.requires@;
            let some = Some(m);
            import_calls(scan, u, some) == calls_of_kind(ImportKind::Command, subs, u, some)
                + calls_of_kind(ImportKind::Paginate, subs, u, some) + calls_of_kind(
                ImportKind::Waiter,
                subs,
                u,
                some,
            ) + calls_of_kind(ImportKind::CommandInput, subs, u, some) + library_calls(
                subs,
                u,
                m,
                handled_names(subs, u),
            )
        }),
{
    let subs = scan.imports@ + scan.requires@;
    let none: Option<JsV3LibrariesMapping> = None;
    let four = calls_of_kind(ImportKind::Command, subs, u, none) + calls_of_kind(
        ImportKind::Paginate,
        subs,
        u,
        none,
    ) + calls_of_kind(ImportKind::Waiter, subs, u, none) + calls_of_kind(
        ImportKind::CommandInput,
        subs,
        u,
        none,
    );
    assert(four + Seq::<SdkCallView>::empty() =~= four);
}

/// The names that count as handled are the imported names of one of the four kinds and the names
/// that are used under the name of a whole library, of libraries whose service is known.
pub proof fn names_of_the_four_kinds_are_handled(
    subs: Seq<SublibraryInfo>,
    u: ScanUsages,
    x: Seq<char>,
)
    ensures
        handled_names(subs, u).contains(x) == (exists|kind: ImportKind, i: int|
            0 <= i < subs.len() && #[trigger] names_of_sublibrary(kind, subs[i], u).contains(x)),
{
    broadcast use lemma_seq_concat_contains_all_elements;

    lemma_names_of_kind(ImportKind::Command, subs, u, x);
    lemma_names_of_kind(ImportKind::Paginate, subs, u, x);
    lemma_names_of_kind(ImportKind::Waiter, subs, u, x);
    lemma_names_of_kind(ImportKind::CommandInput, subs, u, x);
    if exists|kind: ImportKind, i: int|
        0 <= i < subs.len() && #[trigger] names_of_sublibrary(kind, subs[i], u).contains(x) {
        let (kind, i) = choose|kind: ImportKind, i: int|
            0 <= i < subs.len() && #[trigger] names_of_sublibrary(kind, subs[i], u).contains(x);
        assert(names_of_kind(kind, subs, u).contains(x)) by {
            lemma_names_of_kind(kind, subs, u, x);
        }
        match kind {
            ImportKind::Command => {},
            ImportKind::Paginate => {},
            ImportKind::Waiter => {},
            ImportKind::CommandInput => {},
        }
    }
}

proof fn lemma_names_of_kind(
    kind: ImportKind,
    subs: Seq<SublibraryInfo>,
    u: ScanUsages,
    x: Seq<char>,
)
    ensures
        names_of_kind(kind, subs, u).contains(x) == (exists|i: int|
            0 <= i < subs.len() && #[trigger] names_of_sublibrary(kind, subs[i], u).contains(x)),
    decreases subs.len(),
{
    broadcast use lemma_seq_concat_contains_all_elements;

    if subs.len() > 0 {
        let t = subs.drop_last();
        lemma_names_of_kind(kind, t, u, x);
        assert(subs[subs.len() - 1] == subs.last());
        assert forall|i: int| 0 <= i < t.len() implies t[i] == subs[i] by {}
        if names_of_kind(kind, t, u).contains(x) {
            let i = choose|i: int|
                0 <= i < t.len() && #[trigger] names_of_sublibrary(kind, t[i], u).contains(x);
            assert(names_of_sublibrary(kind, subs[i], u).contains(x));
        }
        if names_of_sublibrary(kind, subs.last(), u).contains(x) {
            assert(names_of_sublibrary(kind, subs[subs.len() - 1], u).contains(x));
        }
        if exists|i: int|
            0 <= i < subs.len() && #[trigger] names_of_sublibrary(kind, subs[i], u).contains(x) {
            let i = choose|i: int|
                0 <= i < subs.len() && #[trigger] names_of_sublibrary(kind, subs[i], u).contains(x);
            if i < t.len() {
                assert(names_of_sublibrary(kind, t[i], u).contains(x));
            }
        }
    }
}

/// The handled names of a kind from one library: its imported names of the kind, and what is used
/// under its name.
pub proof fn names_of_a_library(
    kind: ImportKind,
    s: SublibraryInfo,
    u: ScanUsages,
    service: Seq<char>,
    x: Seq<char>,
)
    requires
        s.sublibrary@ == "client-"@ + service || s.sublibrary@ == "lib-"@ + service,
    ensures
        names_of_sublibrary(kind, s, u).contains(x) == ((is_of_kind(kind, x) && exists|k: int|
            0 <= k < s.imports@.len() && (#[trigger] s.imports@[k]).original_name@ == x) || (
        s.wildcard_namespace matches Some(n) && exists|k: int|
            0 <= k < namespace_of(kind, u, n@).len() && (#[trigger] namespace_of(
                kind,
                u,
                n@,
            )[k]).0@ == x)),
{
    broadcast use lemma_seq_concat_contains_all_elements;

    services_follow_the_prefix(service);
    lemma_names_of_imports(kind, s.imports@, x);
    if let Some(n) = s.wildcard_namespace {
        let f = namespace_of(kind, u, n@);
        if names_found(f).contains(x) {
            let k = choose|k: int| 0 <= k < f.len() && names_found(f)[k] == x;
            assert(f[k].0@ == x);
        }
        if exists|k: int| 0 <= k < f.len() && (#[trigger] f[k]).0@ == x {
            let k = choose|k: int| 0 <= k < f.len() && (#[trigger] f[k]).0@ == x;
            assert(names_found(f)[k] == x);
        }
    }
}

proof fn lemma_names_of_imports(kind: ImportKind, imports: Seq<ImportInfo>, x: Seq<char>)
    ensures
        names_of_imports(kind, imports).contains(x) == (is_of_kind(kind, x) && exists|k: int|
            0 <= k < imports.len() && (#[trigger] imports[k]).original_name@ == x),
    decreases imports.len(),
{
    broadcast use lemma_seq_contains_after_push;

    if imports.len() > 0 {
        let t = imports.drop_last();
        lemma_names_of_imports(kind, t, x);
        assert(imports[imports.len() - 1] == imports.last());
        assert forall|k: int| 0 <= k < t.len() implies t[k] == imports[k] by {}
        if names_of_imports(kind, t).contains(x) {
            let k = choose|k: int| 0 <= k < t.len() && (#[trigger] t[k]).original_name@ == x;
            assert(imports[k].original_name@ == x);
        }
        if is_of_kind(kind, x) && exists|k: int|
            0 <= k < imports.len() && (#[trigger] imports[k]).original_name@ == x {
            let k = choose|k: int|
                0 <= k < imports.len() && (#[trigger] imports[k]).original_name@ == x;
            if k < t.len() {
                assert(t[k].original_name@ == x);
            }
        }
    }
}

/// A class of an auxiliary library that a file imports and that is not handled as one of the four
/// kinds of names is called: there is a call for every command that it stands for.
pub proof fn imported_classes_are_called(
    scan: JavaScriptScanResults,
    s: SublibraryInfo,
    k: int,
    service: Seq<char>,
    u: ScanUsages,
    m: JsV3LibrariesMapping,
    names: Seq<Seq<char>>,
    j: int,
    op: Seq<char>,
)
    requires
        scan.imports@.contains(s) || scan.requires@.contains(s),
        s.sublibrary@ == "lib-"@ + service,
        0 <= k < s.imports@.len(),
        !handled_names(scan.imports@ + scan.requires@, u).contains(s.imports@[k].original_name@),
        expansion(m, service, s.imports@[k].original_name@) == Some(names),
        0 <= j < names.len(),
        names[j] == op + "Command"@,
    ensures
        import_calls(scan, u, Some(m)).contains(
            call_at(op, service, usage_of(u.instantiations@, s.imports@[k])),
        ),
{
    broadcast use lemma_seq_concat_contains_all_elements;

    let subs = all_sublibraries(scan);
    let handled = handled_names(subs, u);
    let usage = usage_of(u.instantiations@, s.imports@[k]);
    let c = call_at(op, service, usage);
    services_follow_the_prefix(service);
    lemma_calls_for_has(names, NameRule::Command, service, usage, j, op);
    lemma_class_is_called(service, s.imports@, u, m, handled, k, names, c);
    assert(library_calls_of_sublibrary(s, u, m, handled).contains(c));
    assert(subs.contains(s));
    let i = choose|i: int| 0 <= i < subs.len() && subs[i] == s;
    lemma_library_counts(subs, u, m, handled, i, c);
}

proof fn lemma_class_is_called(
    service: Seq<char>,
    imports: Seq<ImportInfo>,
    u: ScanUsages,
    m: JsV3LibrariesMapping,
    handled: Seq<Seq<char>>,
    k: int,
    names: Seq<Seq<char>>,
    c: SdkCallView,
)
    requires
        0 <= k < imports.len(),
        !handled.contains(imports[k].original_name@),
        expansion(m, service, imports[k].original_name@) == Some(names),
        calls_for(
            names,
            NameRule::Command,
            service,
            usage_of(u.instantiations@, imports[k]),
        ).contains(c),
    ensures
        library_calls_of_imports(service, imports, u, m, handled).contains(c),
    decreases imports.len(),
{
    broadcast use lemma_seq_concat_contains_all_elements;

    if k < imports.len() - 1 {
        let t = imports.drop_last();
        assert(t[k] == imports[k]);
        lemma_class_is_called(service, t, u, m, handled, k, names, c);
    } else {
        assert(imports[k] == imports.last());
    }
}

proof fn lemma_library_counts(
    subs: Seq<SublibraryInfo>,
    u: ScanUsages,
    m: JsV3LibrariesMapping,
    handled: Seq<Seq<char>>,
    i: int,
    c: SdkCallView,
)
    requires
        0 <= i < subs.len(),
        library_calls_of_sublibrary(subs[i], u, m, handled).contains(c),
    ensures
        library_calls(subs, u, m, handled).contains(c),
    decreases subs.len(),
{
    broadcast use lemma_seq_concat_contains_all_elements;

    if i < subs.len() - 1 {
        let t = subs.drop_last();
        assert(t[i] == subs[i]);
        lemma_library_counts(t, u, m, handled, i, c);
    } else {
        assert(subs[i] == subs.last());
    }
}

/// A class of an auxiliary library that is used under the name of the library is called, once for
/// each use and each command that it stands for.
pub proof fn classes_of_whole_libraries_are_called(
    scan: JavaScriptScanResults,
    s: SublibraryInfo,
    namespace: Seq<char>,
    service: Seq<char>,
    u: ScanUsages,
    m: JsV3LibrariesMapping,
    k: int,
    n: int,
    j: int,
    op: Seq<char>,
)
    requires
        scan.imports@.contains(s) || scan.requires@.contains(s),
        s.sublibrary@ == "lib-"@ + service,
        s.wildcard_namespace matches Some(w) && w@ == namespace,
        m.library_operation_expansions@.contains_key(service),
        ({
            let classes = m.library_operation_expansions@[service].entry_list();
            &&& 0 <= k < classes.len()
            &&& !handled_names(scan.imports@ + scan.requires@, u).contains(classes[k].0@)
            &&& 0 <= n < namespace_found(
                u.namespace_instantiations@,
                namespace,
                classes[k].0@,
            ).len()
            &&& 0 <= j < classes[k].1@.len()
            &&& classes[k].1@[j]@ == op + "Command"@
        }),
    ensures
        import_calls(scan, u, Some(m)).contains(
            call_at(
                op,
                service,
                namespace_found(
                    u.namespace_instantiations@,
                    namespace,
                    m.library_operation_expansions@[service].entry_list()[k].0@,
                )[n].1@,
            ),
        ),
{
    broadcast use lemma_seq_concat_contains_all_elements;

    let subs = all_sublibraries(scan);
    let handled = handled_names(subs, u);
    let classes = m.library_operation_expansions@[service].entry_list();
    let found = namespace_found(u.namespace_instantiations@, namespace, classes[k].0@);
    let names = crate::text::texts(classes[k].1@);
    let c = call_at(op, service, found[n].1@);
    services_follow_the_prefix(service);
    assert(names[j] == op + "Command"@);
    lemma_calls_for_has(names, NameRule::Command, service, found[n].1@, j, op);
    lemma_use_is_called(names, service, found, n, c);
    lemma_whole_class_is_called(service, classes, namespace, u, handled, k, c);
    assert(library_calls_of_sublibrary(s, u, m, handled).contains(c));
    assert(subs.contains(s));
    let i = choose|i: int| 0 <= i < subs.len() && subs[i] == s;
    lemma_library_counts(subs, u, m, handled, i, c);
}

proof fn lemma_use_is_called(
    names: Seq<Seq<char>>,
    service: Seq<char>,
    found: Seq<(String, CommandUsage)>,
    n: int,
    c: SdkCallView,
)
    requires
        0 <= n < found.len(),
        calls_for(names, NameRule::Command, service, found[n].1@).contains(c),
    ensures
        calls_of_uses(names, service, found).contains(c),
    decreases found.len(),
{
    broadcast use lemma_seq_concat_contains_all_elements;

    if n < found.len() - 1 {
        let t = found.drop_last();
        assert(t[n] == found[n]);
        lemma_use_is_called(names, service, t, n, c);
    } else {
        assert(found[n] == found.last());
    }
}

proof fn lemma_whole_class_is_called(
    service: Seq<char>,
    classes: Seq<(String, Vec<String>)>,
    namespace: Seq<char>,
    u: ScanUsages,
    handled: Seq<Seq<char>>,
    k: int,
    c: SdkCallView,
)
    requires
        0 <= k < classes.len(),
        !handled.contains(classes[k].0@),
        calls_of_uses(
            crate::text::texts(classes[k].1@),
            service,
            namespace_found(u.namespace_instantiations@, namespace, classes[k].0@),
        ).contains(c),
    ensures
        library_calls_of_classes(service, classes, namespace, u, handled).contains(c),
    decreases classes.len(),
{
    broadcast use lemma_seq_concat_contains_all_elements;

    if k < classes.len() - 1 {
        let t = classes.drop_last();
        assert(t[k] == classes[k]);
        lemma_whole_class_is_called(service, t, namespace, u, handled, k, c);
    } else {
        assert(classes[k] == classes.last());
    }
}

/// A library of a service adds calls of that service only.
pub proof fn libraries_call_their_service(
    kind: ImportKind,
    s: SublibraryInfo,
    service: Seq<char>,
    u: ScanUsages,
    mappings: Option<JsV3LibrariesMapping>,
    k: int,
)
    requires
        s.sublibrary@ == "client-"@ + service || s.sublibrary@ == "lib-"@ + service,
        0 <= k < calls_of_sublibrary(kind, s, u, mappings).len(),
    ensures
        calls_of_sublibrary(kind, s, u, mappings)[k].possible_services == seq![service],
{
    services_follow_the_prefix(service);
    let lib = is_lib(s.sublibrary@);
    lemma_imports_service(kind, lib, service, s.imports@, u, mappings);
    if let Some(n) = s.wildcard_namespace {
        lemma_namespace_service(kind, lib, service, namespace_of(kind, u, n@), mappings);
    }
}

spec fn all_of(s: Seq<SdkCallView>, service: Seq<char>) -> bool {
    forall|k: int| 0 <= k < s.len() ==> (#[trigger] s[k]).possible_services == seq![service]
}

proof fn lemma_names_service(
    names: Seq<Seq<char>>,
    rule: NameRule,
    service: Seq<char>,
    usage: UsageView,
)
    ensures
        all_of(calls_for(names, rule, service, usage), service),
    decreases names.len(),
{
    if names.len() > 0 {
        lemma_names_service(names.drop_last(), rule, service, usage);
    }
}

proof fn lemma_name_service(
    kind: ImportKind,
    lib: bool,
    service: Seq<char>,
    name: Seq<char>,
    usage: UsageView,
    mappings: Option<JsV3LibrariesMapping>,
)
    ensures
        all_of(calls_of_name(kind, lib, service, name, usage, mappings), service),
{
    lemma_names_service(
        expanded_names(lib, service, name, mappings),
        NameRule::Command,
        service,
        usage,
    );
    lemma_names_service(
        expanded_names(lib, service, name, mappings),
        NameRule::Paginate,
        service,
        usage,
    );
}

proof fn lemma_imports_service(
    kind: ImportKind,
    lib: bool,
    service: Seq<char>,
    imports: Seq<ImportInfo>,
    u: ScanUsages,
    mappings: Option<JsV3LibrariesMapping>,
)
    ensures
        all_of(calls_of_imports(kind, lib, service, imports, u, mappings), service),
    decreases imports.len(),
{
    if imports.len() > 0 {
        lemma_imports_service(kind, lib, service, imports.drop_last(), u, mappings);
        let i = imports.last();
        lemma_name_service(
            kind,
            lib,
            service,
            i.original_name@,
            usage_of(table_of(kind, u), i),
            mappings,
        );
    }
}

proof fn lemma_namespace_service(
    kind: ImportKind,
    lib: bool,
    service: Seq<char>,
    found: Seq<(String, CommandUsage)>,
    mappings: Option<JsV3LibrariesMapping>,
)
    ensures
        all_of(calls_of_namespace(kind, lib, service, found, mappings), service),
    decreases found.len(),
{
    if found.len() > 0 {
        lemma_namespace_service(kind, lib, service, found.drop_last(), mappings);
        lemma_name_service(kind, lib, service, found.last().0@, found.last().1@, mappings);
    }
}

/// A method of a client is called under its name with a capital, for the service of the library of
/// the client, with its arguments under their names. Sending a command is no call of its own, and
/// clients of other libraries have none.
pub proof fn methods_are_called_by_name(c: MethodCall, service: Seq<char>)
    requires
        c.method_name@.len() > 0,
    ensures
        c.method_name@ == "send"@ ==> call_of_method(c) is None,
        (forall|s: Seq<char>|
            c.client_sublibrary@ != #[trigger] ("client-"@ + s) && c.client_sublibrary@ != "lib-"@
                + s) ==> call_of_method(c) is None,
        c.method_name@ != "send"@ && (c.client_sublibrary@ == "client-"@ + service
            || c.client_sublibrary@ == "lib-"@ + service) ==> call_of_method(c) == Some(
            SdkCallView {
                name: upper_case_char(c.method_name@[0]) + c.method_name@.subrange(
                    1,
                    c.method_name@.len() as int,
                ),
                possible_services: seq![service],
                metadata: Some(
                    MetadataView {
                        expr: c.expr@,
                        location: c.location@,
                        parameters: keyword_parameters(c.arguments.entry_list()),
                        receiver: Some(c.client_variable@),
                    },
                ),
            },
        ),
{
    services_follow_the_prefix(service);
    other_libraries_have_no_service(c.client_sublibrary@);
    if let Some(s) = service_of(c.client_sublibrary@) {
        let client = "client-"@ + s;
        assert(c.client_sublibrary@ == client || c.client_sublibrary@ == "lib-"@ + s);
    }
}

/// Arguments keep their names, their texts and their places.
pub proof fn arguments_keep_their_places(arguments: Seq<(String, String)>, i: int)
    requires
        0 <= i < arguments.len(),
        arguments.len() <= usize::MAX,
    ensures
        keyword_parameters(arguments).len() == arguments.len(),
        keyword_parameters(arguments)[i] == (ParameterView::Keyword {
            name: arguments[i].0@,
            value: ParameterValueView::Unresolved(arguments[i].1@),
            position: i as usize,
            type_annotation: None,
        }),
{
}

/// Names keep all but the case of their first character.
pub proof fn capitals_change_the_first_character_only(c: char, rest: Seq<char>)
    ensures
        pascal(seq![c] + rest) == upper_case_char(c) + rest,
        pascal(Seq::empty()) == Seq::<char>::empty(),
{
    assert((seq![c] + rest).subrange(1, (seq![c] + rest).len() as int) =~= rest);
}

/// Method calls are mapped one by one, in their order.
pub proof fn methods_are_mapped_one_by_one(a: Seq<MethodCall>, c: MethodCall, b: Seq<MethodCall>)
    ensures
        calls_of_methods(a + seq![c] + b) == calls_of_methods(a) + (match call_of_method(c) {
            Some(x) => seq![x],
            None => Seq::empty(),
        }) + calls_of_methods(b),
    decreases b.len(),
{
    let v = a + seq![c] + b;
    let x = calls_of_methods(a);
    let own = match call_of_method(c) {
        Some(x) => seq![x],
        None => Seq::empty(),
    };
    if b.len() == 0 {
        assert(v.drop_last() =~= a);
        assert(v.last() == c);
        assert(x + own + calls_of_methods(b) =~= x + own);
    } else {
        let t = b.drop_last();
        methods_are_mapped_one_by_one(a, c, t);
        assert(v.drop_last() =~= a + seq![c] + t);
        assert(v.last() == b.last());
        assert(calls_of_methods(v) =~= x + own + calls_of_methods(b));
    }
}

/// Classes of auxiliary libraries are mapped one by one: a handled one adds nothing, and another one
/// the commands that it stands for.
pub proof fn classes_are_mapped_one_by_one(
    service: Seq<char>,
    imports: Seq<ImportInfo>,
    i: ImportInfo,
    u: ScanUsages,
    m: JsV3LibrariesMapping,
    handled: Seq<Seq<char>>,
)
    ensures
        handled.contains(i.original_name@) || expansion(m, service, i.original_name@) is None
            ==> library_calls_of_imports(service, imports.push(i), u, m, handled)
            == library_calls_of_imports(service, imports, u, m, handled),
        !handled.contains(i.original_name@) && expansion(m, service, i.original_name@) is Some
            ==> library_calls_of_imports(service, imports.push(i), u, m, handled)
            == library_calls_of_imports(service, imports, u, m, handled) + calls_for(
            expansion(m, service, i.original_name@)->0,
            NameRule::Command,
            service,
            usage_of(u.instantiations@, i),
        ),
        library_calls_of_imports(service, Seq::empty(), u, m, handled).len() == 0,
{
    assert(imports.push(i).drop_last() =~= imports);
}

/// Classes that are used under the name of a library are mapped one by one, and so are their uses.
pub proof fn used_classes_are_mapped_one_by_one(
    service: Seq<char>,
    classes: Seq<(String, Vec<String>)>,
    class: (String, Vec<String>),
    namespace: Seq<char>,
    u: ScanUsages,
    handled: Seq<Seq<char>>,
    names: Seq<Seq<char>>,
    found: Seq<(String, CommandUsage)>,
    f: (String, CommandUsage),
)
    ensures
        handled.contains(class.0@) ==> library_calls_of_classes(
            service,
            classes.push(class),
            namespace,
            u,
            handled,
        ) == library_calls_of_classes(service, classes, namespace, u, handled),
        !handled.contains(class.0@) ==> library_calls_of_classes(
            service,
            classes.push(class),
            namespace,
            u,
            handled,
        ) == library_calls_of_classes(service, classes, namespace, u, handled) + calls_of_uses(
            crate::text::texts(class.1@),
            service,
            namespace_found(u.namespace_instantiations@, namespace, class.0@),
        ),
        library_calls_of_classes(service, Seq::empty(), namespace, u, handled).len() == 0,
        calls_of_uses(names, service, found.push(f)) == calls_of_uses(names, service, found)
            + calls_for(names, NameRule::Command, service, f.1@),
        calls_of_uses(names, service, Seq::empty()).len() == 0,
{
    assert(classes.push(class).drop_last() =~= classes);
    assert(found.push(f).drop_last() =~= found);
}

/// Only auxiliary libraries have such classes: those that are imported and, where the whole library
/// is, those of the mapping that are used.
pub proof fn auxiliary_libraries_are_mapped_one_by_one(
    subs: Seq<SublibraryInfo>,
    s: SublibraryInfo,
    service: Seq<char>,
    u: ScanUsages,
    m: JsV3LibrariesMapping,
    handled: Seq<Seq<char>>,
)
    ensures
        library_calls(subs.push(s), u, m, handled) == library_calls(subs, u, m, handled)
            + library_calls_of_sublibrary(s, u, m, handled),
        library_calls(Seq::empty(), u, m, handled).len() == 0,
        s.sublibrary@ == "client-"@ + service ==> library_calls_of_sublibrary(
            s,
            u,
            m,
            handled,
        ).len() == 0,
        s.sublibrary@ == "lib-"@ + service && (s.wildcard_namespace is None
            || !m.library_operation_expansions@.contains_key(service))
            ==> library_calls_of_sublibrary(s, u, m, handled) == library_calls_of_imports(
            service,
            s.imports@,
            u,
            m,
            handled,
        ),
        s.sublibrary@ == "lib-"@ + service && s.wildcard_namespace is Some
            && m.library_operation_expansions@.contains_key(service) ==> library_calls_of_sublibrary(
            s,
            u,
            m,
            handled,
        ) == library_calls_of_imports(service, s.imports@, u, m, handled)
            + library_calls_of_classes(
            service,
            m.library_operation_expansions@[service].entry_list(),
            s.wildcard_namespace->0@,
            u,
            handled,
        ),
{
    assert(subs.push(s).drop_last() =~= subs);
    services_follow_the_prefix(service);
}

} // verus!
