//! The SDK calls behind the names that a file imports and the methods that it calls.

use vstd::prelude::*;

use crate::casing::{ascii_upper, to_upper_case_char, upper_case_char};
use crate::javascript::types::{
    import_usage, CommandUsage, ImportInfo, JavaScriptScanResults, MethodCall, NamespaceUsages,
    ScanUsages, SublibraryInfo, UsageView,
};
use crate::sdk::{
    call_views, copy_parameters, copy_texts, parameter_views, MetadataView, Parameter,
    ParameterValue, ParameterValueView, ParameterView, SdkCallView, SdkMethodCall,
    SdkMethodCallMetadata,
};
use crate::terraform::crud_map::some_of;
use crate::text::{
    after_prefix, before_suffix, chars_of, concat, contains_text, ends_with, has_prefix, has_suffix,
    opt_text, same, starts_with, strip_prefix, strip_suffix, text_between, texts,
};
use crate::text_map::{entries_are_counted, lists_entries, TextMap};

verus! {

/// Which operations the classes of the auxiliary libraries of the SDK stand for.
#[derive(Debug)]
pub struct JsV3LibrariesMapping {
    pub library_operation_expansions: TextMap<TextMap<Vec<String>>>,
}

/// The commands that a name of an auxiliary library stands for.
pub open spec fn expansion(
    m: JsV3LibrariesMapping,
    service: Seq<char>,
    name: Seq<char>,
) -> Option<Seq<Seq<char>>> {
    let libraries = m.library_operation_expansions@;
    if libraries.contains_key(service) && libraries[service]@.contains_key(name) {
        Some(texts(libraries[service]@[name]@))
    } else {
        None
    }
}

/// The service of a library: what stands behind `client-` or `lib-`.
pub open spec fn service_of(sublibrary: Seq<char>) -> Option<Seq<char>> {
    match after_prefix(sublibrary, "client-"@) {
        Some(s) => Some(s),
        None => after_prefix(sublibrary, "lib-"@),
    }
}

/// Whether a library is an auxiliary one.
pub open spec fn is_lib(sublibrary: Seq<char>) -> bool {
    has_prefix(sublibrary, "lib-"@)
}

/// The names that a name stands for. Names of auxiliary libraries are looked up; a name that is
/// not found, and one of any other library, stands for itself.
pub open spec fn expanded_names(
    lib: bool,
    service: Seq<char>,
    name: Seq<char>,
    mappings: Option<JsV3LibrariesMapping>,
) -> Seq<Seq<char>> {
    match mappings {
        Some(m) => if lib {
            match expansion(m, service, name) {
                Some(v) => v,
                None => seq![name],
            }
        } else {
            seq![name]
        },
        None => seq![name],
    }
}

/// How the name of an operation is taken out of another name.
#[derive(Debug, Clone, Copy, PartialEq, Eq, Structural)]
pub enum NameRule {
    /// It stands before `Command`; other names have no operation.
    Command,
    /// It stands before `Command` or behind `paginate`; another name is the operation itself.
    Paginate,
}

pub open spec fn operation_in(rule: NameRule, name: Seq<char>) -> Option<Seq<char>> {
    match rule {
        NameRule::Command => before_suffix(name, "Command"@),
        NameRule::Paginate => match before_suffix(name, "Command"@) {
            Some(op) => Some(op),
            None => match after_prefix(name, "paginate"@) {
                Some(op) => Some(op),
                None => Some(name),
            },
        },
    }
}

/// The call of an operation at the place of a use.
pub open spec fn call_at(operation: Seq<char>, service: Seq<char>, usage: UsageView) -> SdkCallView {
    SdkCallView {
        name: operation,
        possible_services: seq![service],
        metadata: Some(
            MetadataView {
                expr: usage.text,
                location: usage.location,
                parameters: usage.parameters,
                receiver: None,
            },
        ),
    }
}

/// The calls of the operations in the names.
pub open spec fn calls_for(
    names: Seq<Seq<char>>,
    rule: NameRule,
    service: Seq<char>,
    usage: UsageView,
) -> Seq<SdkCallView>
    decreases names.len(),
{
    if names.len() == 0 {
        Seq::empty()
    } else {
        let rest = calls_for(names.drop_last(), rule, service, usage);
        match operation_in(rule, names.last()) {
            Some(op) => rest.push(call_at(op, service, usage)),
            None => rest,
        }
    }
}

/// Where an imported name is used; the import itself if that is not found.
pub open spec fn usage_of(table: Map<Seq<char>, CommandUsage>, i: ImportInfo) -> UsageView {
    if table.contains_key(i.local_name@) {
        table[i.local_name@]@
    } else {
        import_usage(i)
    }
}

/// A kind of imported names.
#[derive(Debug, Clone, Copy, PartialEq, Eq, Structural)]
pub enum ImportKind {
    /// Commands, such as `PutObjectCommand`.
    Command,
    /// Paginators, such as `paginateQuery`.
    Paginate,
    /// Waiters, such as `waitUntilBucketExists`.
    Waiter,
    /// Types of inputs, such as `QueryCommandInput`.
    CommandInput,
}

/// Whether a name is of the kind.
pub open spec fn is_of_kind(kind: ImportKind, name: Seq<char>) -> bool {
    match kind {
        ImportKind::Command => has_suffix(name, "Command"@),
        ImportKind::Paginate => has_prefix(name, "paginate"@),
        ImportKind::Waiter => has_prefix(name, "waitUntil"@),
        ImportKind::CommandInput => has_suffix(name, "CommandInput"@),
    }
}

/// The calls behind a name of the kind that is used at a place.
pub open spec fn calls_of_name(
    kind: ImportKind,
    lib: bool,
    service: Seq<char>,
    name: Seq<char>,
    usage: UsageView,
    mappings: Option<JsV3LibrariesMapping>,
) -> Seq<SdkCallView> {
    match kind {
        ImportKind::Command => calls_for(
            expanded_names(lib, service, name, mappings),
            NameRule::Command,
            service,
            usage,
        ),
        ImportKind::Paginate => calls_for(
            expanded_names(lib, service, name, mappings),
            NameRule::Paginate,
            service,
            usage,
        ),
        ImportKind::Waiter => match after_prefix(name, "waitUntil"@) {
            Some(waiter) => seq![call_at(waiter, service, usage)],
            None => Seq::empty(),
        },
        ImportKind::CommandInput => match before_suffix(name, "CommandInput"@) {
            Some(op) => seq![
                call_at(op, service, UsageView { parameters: Seq::empty(), ..usage }),
            ],
            None => Seq::empty(),
        },
    }
}

/// Where names of the kind are used.
pub open spec fn table_of(kind: ImportKind, u: ScanUsages) -> Map<Seq<char>, CommandUsage> {
    match kind {
        ImportKind::Command => u.instantiations@,
        ImportKind::Paginate => u.paginators@,
        ImportKind::Waiter => u.waiters@,
        ImportKind::CommandInput => u.command_inputs@,
    }
}

/// The calls behind the imported names of the kind.
pub open spec fn calls_of_imports(
    kind: ImportKind,
    lib: bool,
    service: Seq<char>,
    imports: Seq<ImportInfo>,
    u: ScanUsages,
    mappings: Option<JsV3LibrariesMapping>,
) -> Seq<SdkCallView>
    decreases imports.len(),
{
    if imports.len() == 0 {
        Seq::empty()
    } else {
        let rest = calls_of_imports(kind, lib, service, imports.drop_last(), u, mappings);
        let i = imports.last();
        if is_of_kind(kind, i.original_name@) {
            rest + calls_of_name(
                kind,
                lib,
                service,
                i.original_name@,
                usage_of(table_of(kind, u), i),
                mappings,
            )
        } else {
            rest
        }
    }
}

/// What was found under the name of a library and a form; nothing if neither was looked for.
pub open spec fn namespace_found(
    v: Seq<NamespaceUsages>,
    namespace: Seq<char>,
    form: Seq<char>,
) -> Seq<(String, CommandUsage)>
    decreases v.len(),
{
    if v.len() == 0 {
        Seq::empty()
    } else if v[0].namespace@ == namespace && v[0].form@ == form {
        v[0].found@
    } else {
        namespace_found(v.subrange(1, v.len() as int), namespace, form)
    }
}

/// The names of the kind that are used under the name of a library.
pub open spec fn namespace_of(
    kind: ImportKind,
    u: ScanUsages,
    namespace: Seq<char>,
) -> Seq<(String, CommandUsage)> {
    match kind {
        ImportKind::Command => namespace_found(
            u.namespace_instantiations@,
            namespace,
            "Command"@,
        ),
        ImportKind::Paginate => namespace_found(u.namespace_paginators@, namespace, "paginate"@),
        ImportKind::Waiter => namespace_found(u.namespace_waiters@, namespace, "waitUntil"@),
        ImportKind::CommandInput => Seq::empty(),
    }
}

/// The calls behind names that are used under the name of a library.
pub open spec fn calls_of_namespace(
    kind: ImportKind,
    lib: bool,
    service: Seq<char>,
    found: Seq<(String, CommandUsage)>,
    mappings: Option<JsV3LibrariesMapping>,
) -> Seq<SdkCallView>
    decreases found.len(),
{
    if found.len() == 0 {
        Seq::empty()
    } else {
        calls_of_namespace(kind, lib, service, found.drop_last(), mappings) + calls_of_name(
            kind,
            lib,
            service,
            found.last().0@,
            found.last().1@,
            mappings,
        )
    }
}

/// The calls behind the names of the kind from one library. A library of an unknown kind has none.
pub open spec fn calls_of_sublibrary(
    kind: ImportKind,
    s: SublibraryInfo,
    u: ScanUsages,
    mappings: Option<JsV3LibrariesMapping>,
) -> Seq<SdkCallView> {
    match service_of(s.sublibrary@) {
        Some(service) => {
            let lib = is_lib(s.sublibrary@);
            let named = calls_of_imports(kind, lib, service, s.imports@, u, mappings);
            match s.wildcard_namespace {
                Some(namespace) => named + calls_of_namespace(
                    kind,
                    lib,
                    service,
                    namespace_of(kind, u, namespace@),
                    mappings,
                ),
                None => named,
            }
        },
        None => Seq::empty(),
    }
}

/// The calls behind the names of the kind from all libraries.
pub open spec fn calls_of_kind(
    kind: ImportKind,
    subs: Seq<SublibraryInfo>,
    u: ScanUsages,
    mappings: Option<JsV3LibrariesMapping>,
) -> Seq<SdkCallView>
    decreases subs.len(),
{
    if subs.len() == 0 {
        Seq::empty()
    } else {
        calls_of_kind(kind, subs.drop_last(), u, mappings) + calls_of_sublibrary(
            kind,
            subs.last(),
            u,
            mappings,
        )
    }
}

/// The imported names of the kind.
pub open spec fn names_of_imports(kind: ImportKind, imports: Seq<ImportInfo>) -> Seq<Seq<char>>
    decreases imports.len(),
{
    if imports.len() == 0 {
        Seq::empty()
    } else {
        let rest = names_of_imports(kind, imports.drop_last());
        if is_of_kind(kind, imports.last().original_name@) {
            rest.push(imports.last().original_name@)
        } else {
            rest
        }
    }
}

pub open spec fn names_found(found: Seq<(String, CommandUsage)>) -> Seq<Seq<char>> {
    found.map_values(|f: (String, CommandUsage)| f.0@)
}

/// The names of the kind from one library.
pub open spec fn names_of_sublibrary(
    kind: ImportKind,
    s: SublibraryInfo,
    u: ScanUsages,
) -> Seq<Seq<char>> {
    match service_of(s.sublibrary@) {
        Some(service) => {
            let named = names_of_imports(kind, s.imports@);
            match s.wildcard_namespace {
                Some(namespace) => named + names_found(namespace_of(kind, u, namespace@)),
                None => named,
            }
        },
        None => Seq::empty(),
    }
}

/// The names of the kind from all libraries.
pub open spec fn names_of_kind(
    kind: ImportKind,
    subs: Seq<SublibraryInfo>,
    u: ScanUsages,
) -> Seq<Seq<char>>
    decreases subs.len(),
{
    if subs.len() == 0 {
        Seq::empty()
    } else {
        names_of_kind(kind, subs.drop_last(), u) + names_of_sublibrary(kind, subs.last(), u)
    }
}

/// The names of all four kinds from all libraries.
pub open spec fn handled_names(subs: Seq<SublibraryInfo>, u: ScanUsages) -> Seq<Seq<char>> {
    names_of_kind(ImportKind::Command, subs, u) + names_of_kind(ImportKind::Paginate, subs, u)
        + names_of_kind(ImportKind::Waiter, subs, u) + names_of_kind(
        ImportKind::CommandInput,
        subs,
        u,
    )
}

/// The calls behind imported classes of an auxiliary library that are of none of the four kinds.
pub open spec fn library_calls_of_imports(
    service: Seq<char>,
    imports: Seq<ImportInfo>,
    u: ScanUsages,
    m: JsV3LibrariesMapping,
    handled: Seq<Seq<char>>,
) -> Seq<SdkCallView>
    decreases imports.len(),
{
    if imports.len() == 0 {
        Seq::empty()
    } else {
        let rest = library_calls_of_imports(service, imports.drop_last(), u, m, handled);
        let i = imports.last();
        if handled.contains(i.original_name@) {
            rest
        } else {
            match expansion(m, service, i.original_name@) {
                Some(names) => rest + calls_for(
                    names,
                    NameRule::Command,
                    service,
                    usage_of(u.instantiations@, i),
                ),
                None => rest,
            }
        }
    }
}

/// The calls behind the uses of a class that stands for the commands.
pub open spec fn calls_of_uses(
    names: Seq<Seq<char>>,
    service: Seq<char>,
    found: Seq<(String, CommandUsage)>,
) -> Seq<SdkCallView>
    decreases found.len(),
{
    if found.len() == 0 {
        Seq::empty()
    } else {
        calls_of_uses(names, service, found.drop_last()) + calls_for(
            names,
            NameRule::Command,
            service,
            found.last().1@,
        )
    }
}

/// The calls behind classes that are used under the name of an auxiliary library.
pub open spec fn library_calls_of_classes(
    service: Seq<char>,
    classes: Seq<(String, Vec<String>)>,
    namespace: Seq<char>,
    u: ScanUsages,
    handled: Seq<Seq<char>>,
) -> Seq<SdkCallView>
    decreases classes.len(),
{
    if classes.len() == 0 {
        Seq::empty()
    } else {
        let rest = library_calls_of_classes(service, classes.drop_last(), namespace, u, handled);
        let (class, names) = classes.last();
        if handled.contains(class@) {
            rest
        } else {
            rest + calls_of_uses(
                texts(names@),
                service,
                namespace_found(u.namespace_instantiations@, namespace, class@),
            )
        }
    }
}

/// The calls behind the other classes of one library, if it is an auxiliary one.
pub open spec fn library_calls_of_sublibrary(
    s: SublibraryInfo,
    u: ScanUsages,
    m: JsV3LibrariesMapping,
    handled: Seq<Seq<char>>,
) -> Seq<SdkCallView> {
    if !is_lib(s.sublibrary@) {
        Seq::empty()
    } else {
        match service_of(s.sublibrary@) {
            Some(service) => {
                let named = library_calls_of_imports(service, s.imports@, u, m, handled);
                let libraries = m.library_operation_expansions@;
                match s.wildcard_namespace {
                    Some(namespace) => if libraries.contains_key(service) {
                        named + library_calls_of_classes(
                            service,
                            libraries[service].entry_list(),
                            namespace@,
                            u,
                            handled,
                        )
                    } else {
                        named
                    },
                    None => named,
                }
            },
            None => Seq::empty(),
        }
    }
}

/// The calls behind the other classes of all auxiliary libraries.
pub open spec fn library_calls(
    subs: Seq<SublibraryInfo>,
    u: ScanUsages,
    m: JsV3LibrariesMapping,
    handled: Seq<Seq<char>>,
) -> Seq<SdkCallView>
    decreases subs.len(),
{
    if subs.len() == 0 {
        Seq::empty()
    } else {
        library_calls(subs.drop_last(), u, m, handled) + library_calls_of_sublibrary(
            subs.last(),
            u,
            m,
            handled,
        )
    }
}

/// What a file imports, in whatever way: imports before requires.
pub open spec fn all_sublibraries(scan: JavaScriptScanResults) -> Seq<SublibraryInfo> {
    scan.imports@ + scan.requires@
}

/// The calls behind all names that a file imports: those of commands, paginators, waiters and
/// types of inputs, then those of other classes of auxiliary libraries.
pub open spec fn import_calls(
    scan: JavaScriptScanResults,
    u: ScanUsages,
    mappings: Option<JsV3LibrariesMapping>,
) -> Seq<SdkCallView> {
    let subs = all_sublibraries(scan);
    calls_of_kind(ImportKind::Command, subs, u, mappings) + calls_of_kind(
        ImportKind::Paginate,
        subs,
        u,
        mappings,
    ) + calls_of_kind(ImportKind::Waiter, subs, u, mappings) + calls_of_kind(
        ImportKind::CommandInput,
        subs,
        u,
        mappings,
    ) + (match mappings {
        Some(m) => library_calls(subs, u, m, handled_names(subs, u)),
        None => Seq::empty(),
    })
}

fn push_call(
    out: &mut Vec<SdkMethodCall>,
    operation: &str,
    service: &str,
    usage: &CommandUsage,
)
    ensures
        call_views(final(out)@) == call_views(old(out)@).push(
            call_at(operation@, service@, usage@),
        ),
{
    let ghost before = call_views(out@);
    let call = ExtractionUtils::build_sdk_method_call(operation, service, usage);
    let ghost c = call@;
    out.push(call);
    assert(call_views(out@) =~= before.push(c));
}

fn operation_name(rule: NameRule, name: &str) -> (r: Option<String>)
    ensures
        opt_text(r) == operation_in(rule, name@),
{
    match strip_suffix(name, "Command") {
        Some(op) => Some(op),
        None => match rule {
            NameRule::Command => None,
            NameRule::Paginate => match strip_prefix(name, "paginate") {
                Some(op) => Some(op),
                None => Some(name.to_string()),
            },
        },
    }
}

fn push_calls(
    out: &mut Vec<SdkMethodCall>,
    names: &Vec<String>,
    rule: NameRule,
    service: &str,
    usage: &CommandUsage,
)
    ensures
        call_views(final(out)@) == call_views(old(out)@) + calls_for(
            texts(names@),
            rule,
            service@,
            usage@,
        ),
{
    let ghost start = call_views(out@);
    let ghost s = texts(names@);
    let mut i: usize = 0;
    assert(s.subrange(0, 0).len() == 0);
    assert(start + Seq::<SdkCallView>::empty() =~= start);
    while i < names.len()
        invariant
            i <= names@.len(),
            s == texts(names@),
            call_views(out@) == start + calls_for(s.subrange(0, i as int), rule, service@, usage@),
        decreases names@.len() - i,
    {
        let ghost u = s.subrange(0, i + 1);
        let ghost t = s.subrange(0, i as int);
        assert(u.drop_last() =~= t);
        assert(u.last() == names@[i as int]@);
        if let Some(op) = operation_name(rule, names[i].as_str()) {
            push_call(out, op.as_str(), service, usage);
            assert(call_views(out@) =~= start + calls_for(u, rule, service@, usage@));
        }
        i = i + 1;
    }
    assert(s.subrange(0, s.len() as int) =~= s);
}

fn find_usage(table: &TextMap<CommandUsage>, import_info: &ImportInfo) -> (r: CommandUsage)
    ensures
        r@ == usage_of(table@, *import_info),
{
    match table.get(import_info.local_name.as_str()) {
        Some(u) => u.clone(),
        None => CommandUsage::of_import(import_info),
    }
}

fn push_name(
    out: &mut Vec<SdkMethodCall>,
    kind: ImportKind,
    lib: bool,
    service: &str,
    name: &str,
    usage: &CommandUsage,
    mappings: &Option<JsV3LibrariesMapping>,
)
    ensures
        call_views(final(out)@) == call_views(old(out)@) + calls_of_name(
            kind,
            lib,
            service@,
            name@,
            usage@,
            *mappings,
        ),
{
    let ghost start = call_views(out@);
    assert(start + Seq::<SdkCallView>::empty() =~= start);
    match kind {
        ImportKind::Command => {
            let names = ExtractionUtils::expand_lib_names(lib, service, name, mappings);
            push_calls(out, &names, NameRule::Command, service, usage);
        },
        ImportKind::Paginate => {
            let names = ExtractionUtils::expand_lib_names(lib, service, name, mappings);
            push_calls(out, &names, NameRule::Paginate, service, usage);
        },
        ImportKind::Waiter => {
            if let Some(waiter) = strip_prefix(name, "waitUntil") {
                push_call(out, waiter.as_str(), service, usage);
                assert(call_views(out@) =~= start + seq![
                    call_at(waiter@, service@, usage@),
                ]);
            }
        },
        ImportKind::CommandInput => {
            if let Some(op) = strip_suffix(name, "CommandInput") {
                let parameters: Vec<Parameter> = Vec::new();
                assert(parameter_views(parameters@) =~= Seq::<ParameterView>::empty());
                let bare = CommandUsage::new(
                    usage.text.clone(),
                    usage.location.clone(),
                    parameters,
                );
                push_call(out, op.as_str(), service, &bare);
                assert(call_views(out@) =~= start + seq![call_at(op@, service@, bare@)]);
            }
        },
    }
}

fn of_kind(kind: ImportKind, name: &str) -> (r: bool)
    ensures
        r == is_of_kind(kind, name@),
{
    match kind {
        ImportKind::Command => ends_with(name, "Command"),
        ImportKind::Paginate => starts_with(name, "paginate"),
        ImportKind::Waiter => starts_with(name, "waitUntil"),
        ImportKind::CommandInput => ends_with(name, "CommandInput"),
    }
}

fn push_imports(
    out: &mut Vec<SdkMethodCall>,
    handled: &mut Vec<String>,
    kind: ImportKind,
    lib: bool,
    service: &str,
    imports: &Vec<ImportInfo>,
    u: &ScanUsages,
    mappings: &Option<JsV3LibrariesMapping>,
)
    ensures
        call_views(final(out)@) == call_views(old(out)@) + calls_of_imports(
            kind,
            lib,
            service@,
            imports@,
            *u,
            *mappings,
        ),
        texts(final(handled)@) == texts(old(handled)@) + names_of_imports(kind, imports@),
{
    let ghost start = call_views(out@);
    let ghost h = texts(handled@);
    let ghost s = imports@;
    let table = match kind {
        ImportKind::Command => &u.instantiations,
        ImportKind::Paginate => &u.paginators,
        ImportKind::Waiter => &u.waiters,
        ImportKind::CommandInput => &u.command_inputs,
    };
    let mut i: usize = 0;
    assert(s.subrange(0, 0).len() == 0);
    assert(start + Seq::<SdkCallView>::empty() =~= start);
    assert(h + Seq::<Seq<char>>::empty() =~= h);
    while i < imports.len()
        invariant
            i <= imports@.len(),
            s == imports@,
            table@ == table_of(kind, *u),
            call_views(out@) == start + calls_of_imports(
                kind,
                lib,
                service@,
                s.subrange(0, i as int),
                *u,
                *mappings,
            ),
            texts(handled@) == h + names_of_imports(kind, s.subrange(0, i as int)),
        decreases imports@.len() - i,
    {
        let ghost t = s.subrange(0, i as int);
        let ghost v = s.subrange(0, i + 1);
        let ghost before = texts(handled@);
        let import_info = &imports[i];
        assert(v.drop_last() =~= t);
        assert(v.last() == *import_info);
        if of_kind(kind, import_info.original_name.as_str()) {
            handled.push(import_info.original_name.clone());
            let usage = find_usage(table, import_info);
            push_name(
                out,
                kind,
                lib,
                service,
                import_info.original_name.as_str(),
                &usage,
                mappings,
            );
            proof {
                assert(texts(handled@) =~= before.push(import_info.original_name@));
                assert(texts(handled@) =~= h + names_of_imports(kind, v));
                assert(call_views(out@) =~= start + calls_of_imports(
                    kind,
                    lib,
                    service@,
                    v,
                    *u,
                    *mappings,
                ));
            }
        }
        i = i + 1;
    }
    assert(s.subrange(0, s.len() as int) =~= s);
}

fn find_in_namespace<'a>(v: &'a Vec<NamespaceUsages>, namespace: &str, form: &str) -> (r: Option<
    &'a Vec<(String, CommandUsage)>,
>)
    ensures
        match r {
            Some(f) => f@ == namespace_found(v@, namespace@, form@),
            None => namespace_found(v@, namespace@, form@).len() == 0,
        },
{
    let ghost s = v@;
    let mut i: usize = 0;
    assert(s.subrange(0, s.len() as int) =~= s);
    while i < v.len()
        invariant
            i <= v@.len(),
            s == v@,
            namespace_found(s, namespace@, form@) == namespace_found(
                s.subrange(i as int, s.len() as int),
                namespace@,
                form@,
            ),
        decreases v@.len() - i,
    {
        let ghost t = s.subrange(i as int, s.len() as int);
        assert(t[0] == v@[i as int]);
        assert(t.subrange(1, t.len() as int) =~= s.subrange(i + 1, s.len() as int));
        if same(v[i].namespace.as_str(), namespace) && same(v[i].form.as_str(), form) {
            return Some(&v[i].found);
        }
        i = i + 1;
    }
    None
}

fn push_found(
    out: &mut Vec<SdkMethodCall>,
    handled: &mut Vec<String>,
    kind: ImportKind,
    lib: bool,
    service: &str,
    found: &Vec<(String, CommandUsage)>,
    mappings: &Option<JsV3LibrariesMapping>,
)
    ensures
        call_views(final(out)@) == call_views(old(out)@) + calls_of_namespace(
            kind,
            lib,
            service@,
            found@,
            *mappings,
        ),
        texts(final(handled)@) == texts(old(handled)@) + names_found(found@),
{
    let ghost start = call_views(out@);
    let ghost h = texts(handled@);
    let ghost s = found@;
    let mut i: usize = 0;
    assert(s.subrange(0, 0).len() == 0);
    assert(start + Seq::<SdkCallView>::empty() =~= start);
    assert(h + names_found(s.subrange(0, 0)) =~= h);
    while i < found.len()
        invariant
            i <= found@.len(),
            s == found@,
            call_views(out@) == start + calls_of_namespace(
                kind,
                lib,
                service@,
                s.subrange(0, i as int),
                *mappings,
            ),
            texts(handled@) == h + names_found(s.subrange(0, i as int)),
        decreases found@.len() - i,
    {
        let ghost t = s.subrange(0, i as int);
        let ghost v = s.subrange(0, i + 1);
        let ghost before = texts(handled@);
        assert(v.drop_last() =~= t);
        assert(v.last() == found@[i as int]);
        handled.push(found[i].0.clone());
        push_name(out, kind, lib, service, found[i].0.as_str(), &found[i].1, mappings);
        proof {
            assert(texts(handled@) =~= before.push(found@[i as int].0@));
            assert(names_found(v) =~= names_found(t).push(found@[i as int].0@));
            assert(texts(handled@) =~= h + names_found(v));
            assert(call_views(out@) =~= start + calls_of_namespace(
                kind,
                lib,
                service@,
                v,
                *mappings,
            ));
        }
        i = i + 1;
    }
    assert(s.subrange(0, s.len() as int) =~= s);
}

fn push_sublibrary(
    out: &mut Vec<SdkMethodCall>,
    handled: &mut Vec<String>,
    kind: ImportKind,
    info: &SublibraryInfo,
    u: &ScanUsages,
    mappings: &Option<JsV3LibrariesMapping>,
)
    ensures
        call_views(final(out)@) == call_views(old(out)@) + calls_of_sublibrary(
            kind,
            *info,
            *u,
            *mappings,
        ),
        texts(final(handled)@) == texts(old(handled)@) + names_of_sublibrary(kind, *info, *u),
{
    let ghost start = call_views(out@);
    let ghost h = texts(handled@);
    assert(start + Seq::<SdkCallView>::empty() =~= start);
    assert(h + Seq::<Seq<char>>::empty() =~= h);
    let service = match ExtractionUtils::extract_service_from_sublibrary(
        info.sublibrary.as_str(),
    ) {
        Some(s) => s,
        None => {
            return ;
        },
    };
    let lib = starts_with(info.sublibrary.as_str(), "lib-");
    push_imports(out, handled, kind, lib, service.as_str(), &info.imports, u, mappings);
    if let Some(namespace) = &info.wildcard_namespace {
        let found = match kind {
            ImportKind::Command => find_in_namespace(
                &u.namespace_instantiations,
                namespace.as_str(),
                "Command",
            ),
            ImportKind::Paginate => find_in_namespace(
                &u.namespace_paginators,
                namespace.as_str(),
                "paginate",
            ),
            ImportKind::Waiter => find_in_namespace(
                &u.namespace_waiters,
                namespace.as_str(),
                "waitUntil",
            ),
            ImportKind::CommandInput => None,
        };
        let ghost named = calls_of_imports(kind, lib, service@, info.imports@, *u, *mappings);
        let ghost names = names_of_imports(kind, info.imports@);
        let ghost all = namespace_of(kind, *u, namespace@);
        match found {
            Some(f) => {
                push_found(out, handled, kind, lib, service.as_str(), f, mappings);
                proof {
                    let more = calls_of_namespace(kind, lib, service@, all, *mappings);
                    assert(start + named + more =~= start + (named + more));
                    assert(h + names + names_found(all) =~= h + (names + names_found(all)));
                }
            },
            None => {
                proof {
                    assert(all =~= Seq::<(String, CommandUsage)>::empty());
                    assert(named + Seq::<SdkCallView>::empty() =~= named);
                    assert(names_found(all) =~= Seq::<Seq<char>>::empty());
                    assert(names + Seq::<Seq<char>>::empty() =~= names);
                }
            },
        }
    }
}

fn push_sublibraries(
    out: &mut Vec<SdkMethodCall>,
    handled: &mut Vec<String>,
    kind: ImportKind,
    infos: &Vec<SublibraryInfo>,
    u: &ScanUsages,
    mappings: &Option<JsV3LibrariesMapping>,
    done: Ghost<Seq<SublibraryInfo>>,
    calls: Ghost<Seq<SdkCallView>>,
    names: Ghost<Seq<Seq<char>>>,
)
    requires
        call_views(old(out)@) == calls@ + calls_of_kind(kind, done@, *u, *mappings),
        texts(old(handled)@) == names@ + names_of_kind(kind, done@, *u),
    ensures
        call_views(final(out)@) == calls@ + calls_of_kind(kind, done@ + infos@, *u, *mappings),
        texts(final(handled)@) == names@ + names_of_kind(kind, done@ + infos@, *u),
{
    let ghost s = infos@;
    let mut i: usize = 0;
    assert(done@ + s.subrange(0, 0) =~= done@);
    while i < infos.len()
        invariant
            i <= infos@.len(),
            s == infos@,
            call_views(out@) == calls@ + calls_of_kind(
                kind,
                done@ + s.subrange(0, i as int),
                *u,
                *mappings,
            ),
            texts(handled@) == names@ + names_of_kind(kind, done@ + s.subrange(0, i as int), *u),
        decreases infos@.len() - i,
    {
        let ghost t = done@ + s.subrange(0, i as int);
        let ghost v = done@ + s.subrange(0, i + 1);
        proof {
            assert(v.drop_last() =~= t);
            assert(v.last() == infos@[i as int]);
        }
        push_sublibrary(out, handled, kind, &infos[i], u, mappings);
        proof {
            let own = calls_of_sublibrary(kind, infos@[i as int], *u, *mappings);
            let mine = names_of_sublibrary(kind, infos@[i as int], *u);
            assert(calls@ + calls_of_kind(kind, t, *u, *mappings) + own =~= calls@ + (
            calls_of_kind(kind, t, *u, *mappings) + own));
            assert(names@ + names_of_kind(kind, t, *u) + mine =~= names@ + (names_of_kind(
                kind,
                t,
                *u,
            ) + mine));
        }
        i = i + 1;
    }
    assert(s.subrange(0, s.len() as int) =~= s);
}

fn push_kind(
    out: &mut Vec<SdkMethodCall>,
    handled: &mut Vec<String>,
    kind: ImportKind,
    scan: &JavaScriptScanResults,
    u: &ScanUsages,
    mappings: &Option<JsV3LibrariesMapping>,
)
    ensures
        call_views(final(out)@) == call_views(old(out)@) + calls_of_kind(
            kind,
            all_sublibraries(*scan),
            *u,
            *mappings,
        ),
        texts(final(handled)@) == texts(old(handled)@) + names_of_kind(
            kind,
            all_sublibraries(*scan),
            *u,
        ),
{
    let ghost start = call_views(out@);
    let ghost h = texts(handled@);
    let ghost none = Seq::<SublibraryInfo>::empty();
    proof {
        assert(start + Seq::<SdkCallView>::empty() =~= start);
        assert(h + Seq::<Seq<char>>::empty() =~= h);
        assert(none + scan.imports@ =~= scan.imports@);
    }
    push_sublibraries(
        out,
        handled,
        kind,
        &scan.imports,
        u,
        mappings,
        Ghost(none),
        Ghost(start),
        Ghost(h),
    );
    push_sublibraries(
        out,
        handled,
        kind,
        &scan.requires,
        u,
        mappings,
        Ghost(scan.imports@),
        Ghost(start),
        Ghost(h),
    );
}

fn find_expansion<'a>(m: &'a JsV3LibrariesMapping, service: &str, name: &str) -> (r: Option<
    &'a Vec<String>,
>)
    ensures
        match r {
            Some(v) => expansion(*m, service@, name@) == Some(texts(v@)),
            None => expansion(*m, service@, name@) is None,
        },
{
    match m.library_operation_expansions.get(service) {
        Some(lib) => lib.get(name),
        None => None,
    }
}

fn push_library_imports(
    out: &mut Vec<SdkMethodCall>,
    service: &str,
    imports: &Vec<ImportInfo>,
    u: &ScanUsages,
    m: &JsV3LibrariesMapping,
    handled: &Vec<String>,
)
    ensures
        call_views(final(out)@) == call_views(old(out)@) + library_calls_of_imports(
            service@,
            imports@,
            *u,
            *m,
            texts(handled@),
        ),
{
    let ghost start = call_views(out@);
    let ghost h = texts(handled@);
    let ghost s = imports@;
    let mut i: usize = 0;
    assert(s.subrange(0, 0).len() == 0);
    assert(start + Seq::<SdkCallView>::empty() =~= start);
    while i < imports.len()
        invariant
            i <= imports@.len(),
            s == imports@,
            h == texts(handled@),
            call_views(out@) == start + library_calls_of_imports(
                service@,
                s.subrange(0, i as int),
                *u,
                *m,
                h,
            ),
        decreases imports@.len() - i,
    {
        let ghost v = s.subrange(0, i + 1);
        let import_info = &imports[i];
        assert(v.drop_last() =~= s.subrange(0, i as int));
        assert(v.last() == *import_info);
        if !contains_text(handled, import_info.original_name.as_str()) {
            if let Some(names) = find_expansion(m, service, import_info.original_name.as_str()) {
                let usage = find_usage(&u.instantiations, import_info);
                push_calls(out, names, NameRule::Command, service, &usage);
                assert(call_views(out@) =~= start + library_calls_of_imports(
                    service@,
                    v,
                    *u,
                    *m,
                    h,
                ));
            }
        }
        i = i + 1;
    }
    assert(s.subrange(0, s.len() as int) =~= s);
}

fn push_uses(
    out: &mut Vec<SdkMethodCall>,
    names: &Vec<String>,
    service: &str,
    found: &Vec<(String, CommandUsage)>,
)
    ensures
        call_views(final(out)@) == call_views(old(out)@) + calls_of_uses(
            texts(names@),
            service@,
            found@,
        ),
{
    let ghost start = call_views(out@);
    let ghost n = texts(names@);
    let ghost s = found@;
    let mut i: usize = 0;
    assert(s.subrange(0, 0).len() == 0);
    assert(start + Seq::<SdkCallView>::empty() =~= start);
    while i < found.len()
        invariant
            i <= found@.len(),
            s == found@,
            n == texts(names@),
            call_views(out@) == start + calls_of_uses(n, service@, s.subrange(0, i as int)),
        decreases found@.len() - i,
    {
        let ghost v = s.subrange(0, i + 1);
        assert(v.drop_last() =~= s.subrange(0, i as int));
        assert(v.last() == found@[i as int]);
        push_calls(out, names, NameRule::Command, service, &found[i].1);
        assert(call_views(out@) =~= start + calls_of_uses(n, service@, v));
        i = i + 1;
    }
    assert(s.subrange(0, s.len() as int) =~= s);
}

fn push_library_classes(
    out: &mut Vec<SdkMethodCall>,
    service: &str,
    classes: &Vec<(String, Vec<String>)>,
    namespace: &str,
    u: &ScanUsages,
    handled: &Vec<String>,
)
    ensures
        call_views(final(out)@) == call_views(old(out)@) + library_calls_of_classes(
            service@,
            classes@,
            namespace@,
            *u,
            texts(handled@),
        ),
{
    let ghost start = call_views(out@);
    let ghost h = texts(handled@);
    let ghost s = classes@;
    let mut i: usize = 0;
    assert(s.subrange(0, 0).len() == 0);
    assert(start + Seq::<SdkCallView>::empty() =~= start);
    while i < classes.len()
        invariant
            i <= classes@.len(),
            s == classes@,
            h == texts(handled@),
            call_views(out@) == start + library_calls_of_classes(
                service@,
                s.subrange(0, i as int),
                namespace@,
                *u,
                h,
            ),
        decreases classes@.len() - i,
    {
        let ghost v = s.subrange(0, i + 1);
        let ghost rest = library_calls_of_classes(
            service@,
            s.subrange(0, i as int),
            namespace@,
            *u,
            h,
        );
        assert(v.drop_last() =~= s.subrange(0, i as int));
        assert(v.last() == classes@[i as int]);
        let class = classes[i].0.as_str();
        if !contains_text(handled, class) {
            let ghost n = texts(classes@[i as int].1@);
            match find_in_namespace(&u.namespace_instantiations, namespace, class) {
                Some(found) => {
                    push_uses(out, &classes[i].1, service, found);
                    assert(call_views(out@) =~= start + library_calls_of_classes(
                        service@,
                        v,
                        namespace@,
                        *u,
                        h,
                    ));
                },
                None => {
                    proof {
                        let f = namespace_found(
                            u.namespace_instantiations@,
                            namespace@,
                            class@,
                        );
                        assert(calls_of_uses(n, service@, f) =~= Seq::<SdkCallView>::empty());
                        assert(rest + Seq::<SdkCallView>::empty() =~= rest);
                    }
                },
            }
        }
        i = i + 1;
    }
    assert(s.subrange(0, s.len() as int) =~= s);
}

fn push_library_sublibrary(
    out: &mut Vec<SdkMethodCall>,
    info: &SublibraryInfo,
    u: &ScanUsages,
    m: &JsV3LibrariesMapping,
    handled: &Vec<String>,
)
    ensures
        call_views(final(out)@) == call_views(old(out)@) + library_calls_of_sublibrary(
            *info,
            *u,
            *m,
            texts(handled@),
        ),
{
    let ghost start = call_views(out@);
    let ghost h = texts(handled@);
    assert(start + Seq::<SdkCallView>::empty() =~= start);
    if !starts_with(info.sublibrary.as_str(), "lib-") {
        return ;
    }
    let service = match ExtractionUtils::extract_service_from_sublibrary(
        info.sublibrary.as_str(),
    ) {
        Some(s) => s,
        None => {
            return ;
        },
    };
    push_library_imports(out, service.as_str(), &info.imports, u, m, handled);
    if let Some(namespace) = &info.wildcard_namespace {
        if let Some(lib) = m.library_operation_expansions.get(service.as_str()) {
            let ghost named = library_calls_of_imports(service@, info.imports@, *u, *m, h);
            push_library_classes(
                out,
                service.as_str(),
                lib.entries(),
                namespace.as_str(),
                u,
                handled,
            );
            proof {
                let more = library_calls_of_classes(
                    service@,
                    lib.entry_list(),
                    namespace@,
                    *u,
                    h,
                );
                assert(start + named + more =~= start + (named + more));
            }
        }
    }
}

fn push_library_sublibraries(
    out: &mut Vec<SdkMethodCall>,
    infos: &Vec<SublibraryInfo>,
    u: &ScanUsages,
    m: &JsV3LibrariesMapping,
    handled: &Vec<String>,
    done: Ghost<Seq<SublibraryInfo>>,
    calls: Ghost<Seq<SdkCallView>>,
)
    requires
        call_views(old(out)@) == calls@ + library_calls(done@, *u, *m, texts(handled@)),
    ensures
        call_views(final(out)@) == calls@ + library_calls(
            done@ + infos@,
            *u,
            *m,
            texts(handled@),
        ),
{
    let ghost h = texts(handled@);
    let ghost s = infos@;
    let mut i: usize = 0;
    assert(done@ + s.subrange(0, 0) =~= done@);
    while i < infos.len()
        invariant
            i <= infos@.len(),
            s == infos@,
            h == texts(handled@),
            call_views(out@) == calls@ + library_calls(
                done@ + s.subrange(0, i as int),
                *u,
                *m,
                h,
            ),
        decreases infos@.len() - i,
    {
        let ghost t = done@ + s.subrange(0, i as int);
        let ghost v = done@ + s.subrange(0, i + 1);
        proof {
            assert(v.drop_last() =~= t);
            assert(v.last() == infos@[i as int]);
        }
        push_library_sublibrary(out, &infos[i], u, m, handled);
        proof {
            let own = library_calls_of_sublibrary(infos@[i as int], *u, *m, h);
            assert(calls@ + library_calls(t, *u, *m, h) + own =~= calls@ + (library_calls(
                t,
                *u,
                *m,
                h,
            ) + own));
        }
        i = i + 1;
    }
    assert(s.subrange(0, s.len() as int) =~= s);
}

/// The parameters of named arguments: one for each, in their order, with the text as it stands.
pub open spec fn keyword_parameters(arguments: Seq<(String, String)>) -> Seq<ParameterView> {
    Seq::new(
        arguments.len(),
        |i: int|
            ParameterView::Keyword {
                name: arguments[i].0@,
                value: ParameterValueView::Unresolved(arguments[i].1@),
                position: i as usize,
                type_annotation: None,
            },
    )
}

/// The text with its first character in upper case.
pub open spec fn pascal(s: Seq<char>) -> Seq<char> {
    if s.len() == 0 {
        s
    } else {
        upper_case_char(s[0]) + s.subrange(1, s.len() as int)
    }
}

/// The call behind a call of a method of a client. Sending a command is none of its own.
pub open spec fn call_of_method(c: MethodCall) -> Option<SdkCallView> {
    if c.method_name@ == "send"@ {
        None
    } else {
        match service_of(c.client_sublibrary@) {
            Some(service) => Some(
                SdkCallView {
                    name: pascal(c.method_name@),
                    possible_services: seq![service],
                    metadata: Some(
                        MetadataView {
                            expr: c.expr@,
                            location: c.location@,
                            parameters: keyword_parameters(c.arguments.entry_list()),
                            receiver: Some(c.client_variable@),
                        },
                    ),
                },
            ),
            None => None,
        }
    }
}

/// The calls behind calls of methods of clients, in their order.
pub open spec fn calls_of_methods(v: Seq<MethodCall>) -> Seq<SdkCallView>
    decreases v.len(),
{
    if v.len() == 0 {
        Seq::empty()
    } else {
        calls_of_methods(v.drop_last()) + some_of(call_of_method(v.last()))
    }
}

/// What JavaScript and TypeScript have in common.
#[derive(Debug, Clone, Copy, PartialEq, Eq, Structural)]
pub struct ExtractionUtils;

impl ExtractionUtils {
    /// The calls behind all names that a file imports.
    pub fn extract_operations_from_imports(
        scan_results: &JavaScriptScanResults,
        usages: &ScanUsages,
        lib_mappings: &Option<JsV3LibrariesMapping>,
    ) -> (r: Vec<SdkMethodCall>)
        ensures
            call_views(r@) == import_calls(*scan_results, *usages, *lib_mappings),
    {
        let mut out: Vec<SdkMethodCall> = Vec::new();
        let mut handled: Vec<String> = Vec::new();
        let ghost subs = all_sublibraries(*scan_results);
        proof {
            assert(call_views(out@) =~= Seq::<SdkCallView>::empty());
            assert(texts(handled@) =~= Seq::<Seq<char>>::empty());
        }
        Self::extract_command_operations(
            scan_results,
            usages,
            lib_mappings,
            &mut handled,
            &mut out,
        );
        Self::extract_paginate_operations(
            scan_results,
            usages,
            lib_mappings,
            &mut handled,
            &mut out,
        );
        Self::extract_waiter_operations(scan_results, usages, &mut handled, &mut out);
        Self::extract_command_input_operations(scan_results, usages, &mut handled, &mut out);
        let ghost four = call_views(out@);
        proof {
            lemma_mappings_do_not_matter(ImportKind::Waiter, subs, *usages, *lib_mappings);
            lemma_mappings_do_not_matter(ImportKind::CommandInput, subs, *usages, *lib_mappings);
            assert(texts(handled@) =~= handled_names(subs, *usages));
            assert(four + Seq::<SdkCallView>::empty() =~= four);
        }
        Self::extract_library_class_operations(
            scan_results,
            usages,
            lib_mappings,
            &handled,
            &mut out,
        );
        assert(call_views(out@) =~= import_calls(*scan_results, *usages, *lib_mappings));
        out
    }

    /// Adds the calls behind imported commands, and their names to the handled ones.
    pub fn extract_command_operations(
        scan_results: &JavaScriptScanResults,
        usages: &ScanUsages,
        lib_mappings: &Option<JsV3LibrariesMapping>,
        handled_names: &mut Vec<String>,
        operations: &mut Vec<SdkMethodCall>,
    )
        ensures
            call_views(final(operations)@) == call_views(old(operations)@) + calls_of_kind(
                ImportKind::Command,
                all_sublibraries(*scan_results),
                *usages,
                *lib_mappings,
            ),
            texts(final(handled_names)@) == texts(old(handled_names)@) + names_of_kind(
                ImportKind::Command,
                all_sublibraries(*scan_results),
                *usages,
            ),
    {
        push_kind(
            operations,
            handled_names,
            ImportKind::Command,
            scan_results,
            usages,
            lib_mappings,
        );
    }

    /// Adds the calls behind imported paginators, and their names to the handled ones.
    pub fn extract_paginate_operations(
        scan_results: &JavaScriptScanResults,
        usages: &ScanUsages,
        lib_mappings: &Option<JsV3LibrariesMapping>,
        handled_names: &mut Vec<String>,
        operations: &mut Vec<SdkMethodCall>,
    )
        ensures
            call_views(final(operations)@) == call_views(old(operations)@) + calls_of_kind(
                ImportKind::Paginate,
                all_sublibraries(*scan_results),
                *usages,
                *lib_mappings,
            ),
            texts(final(handled_names)@) == texts(old(handled_names)@) + names_of_kind(
                ImportKind::Paginate,
                all_sublibraries(*scan_results),
                *usages,
            ),
    {
        push_kind(
            operations,
            handled_names,
            ImportKind::Paginate,
            scan_results,
            usages,
            lib_mappings,
        );
    }

    /// Adds the calls behind imported waiters, and their names to the handled ones. A call has the
    /// name of the waiter; which operation that polls is resolved later.
    pub fn extract_waiter_operations(
        scan_results: &JavaScriptScanResults,
        usages: &ScanUsages,
        handled_names: &mut Vec<String>,
        operations: &mut Vec<SdkMethodCall>,
    )
        ensures
            call_views(final(operations)@) == call_views(old(operations)@) + calls_of_kind(
                ImportKind::Waiter,
                all_sublibraries(*scan_results),
                *usages,
                None,
            ),
            texts(final(handled_names)@) == texts(old(handled_names)@) + names_of_kind(
                ImportKind::Waiter,
                all_sublibraries(*scan_results),
                *usages,
            ),
    {
        push_kind(operations, handled_names, ImportKind::Waiter, scan_results, usages, &None);
    }

    /// Adds the calls behind imported types of inputs, and their names to the handled ones.
    pub fn extract_command_input_operations(
        scan_results: &JavaScriptScanResults,
        usages: &ScanUsages,
        handled_names: &mut Vec<String>,
        operations: &mut Vec<SdkMethodCall>,
    )
        ensures
            call_views(final(operations)@) == call_views(old(operations)@) + calls_of_kind(
                ImportKind::CommandInput,
                all_sublibraries(*scan_results),
                *usages,
                None,
            ),
            texts(final(handled_names)@) == texts(old(handled_names)@) + names_of_kind(
                ImportKind::CommandInput,
                all_sublibraries(*scan_results),
                *usages,
            ),
    {
        push_kind(
            operations,
            handled_names,
            ImportKind::CommandInput,
            scan_results,
            usages,
            &None,
        );
    }

    /// Adds the calls behind the classes of auxiliary libraries whose names are not handled yet.
    pub fn extract_library_class_operations(
        scan_results: &JavaScriptScanResults,
        usages: &ScanUsages,
        lib_mappings: &Option<JsV3LibrariesMapping>,
        handled_names: &Vec<String>,
        operations: &mut Vec<SdkMethodCall>,
    )
        ensures
            call_views(final(operations)@) == call_views(old(operations)@) + (match lib_mappings {
                Some(m) => library_calls(
                    all_sublibraries(*scan_results),
                    *usages,
                    *m,
                    texts(handled_names@),
                ),
                None => Seq::empty(),
            }),
    {
        let ghost start = call_views(operations@);
        let ghost none = Seq::<SublibraryInfo>::empty();
        proof {
            assert(start + Seq::<SdkCallView>::empty() =~= start);
            assert(none + scan_results.imports@ =~= scan_results.imports@);
        }
        if let Some(m) = lib_mappings {
            push_library_sublibraries(
                operations,
                &scan_results.imports,
                usages,
                m,
                handled_names,
                Ghost(none),
                Ghost(start),
            );
            push_library_sublibraries(
                operations,
                &scan_results.requires,
                usages,
                m,
                handled_names,
                Ghost(scan_results.imports@),
                Ghost(start),
            );
        }
    }

    /// The calls behind calls of methods of clients, such as `client.getObject()`.
    pub fn extract_operations_from_method_calls(scan_results: &JavaScriptScanResults) -> (r: Vec<
        SdkMethodCall,
    >)
        ensures
            call_views(r@) == calls_of_methods(scan_results.method_calls@),
    {
        let ghost s = scan_results.method_calls@;
        let mut out: Vec<SdkMethodCall> = Vec::new();
        let mut i: usize = 0;
        assert(s.subrange(0, 0).len() == 0);
        assert(call_views(out@) =~= Seq::<SdkCallView>::empty());
        while i < scan_results.method_calls.len()
            invariant
                i <= scan_results.method_calls@.len(),
                s == scan_results.method_calls@,
                call_views(out@) == calls_of_methods(s.subrange(0, i as int)),
            decreases scan_results.method_calls@.len() - i,
        {
            let ghost v = s.subrange(0, i + 1);
            let ghost before = call_views(out@);
            let c = &scan_results.method_calls[i];
            proof {
                assert(v.drop_last() =~= s.subrange(0, i as int));
                assert(v.last() == *c);
                assert(before + Seq::<SdkCallView>::empty() =~= before);
            }
            if !same(c.method_name.as_str(), "send") {
                if let Some(service) = Self::extract_service_from_sublibrary(
                    c.client_sublibrary.as_str(),
                ) {
                    let parameters = Self::convert_arguments_to_parameters(&c.arguments);
                    let metadata = SdkMethodCallMetadata::new(
                        c.expr.clone(),
                        c.location.clone(),
                    ).with_parameters(parameters).with_receiver(c.client_variable.clone());
                    let mut possible_services: Vec<String> = Vec::new();
                    possible_services.push(service);
                    assert(texts(possible_services@) =~= seq![service@]);
                    let call = SdkMethodCall {
                        name: Self::camel_case_to_pascal_case(c.method_name.as_str()),
                        possible_services,
                        metadata: Some(metadata),
                    };
                    let ghost x = call@;
                    out.push(call);
                    assert(call_views(out@) =~= before + seq![x]);
                }
            }
            i = i + 1;
        }
        assert(s.subrange(0, s.len() as int) =~= s);
        out
    }

    /// The name of an operation from that of a method: `getObject` is `GetObject`.
    pub fn camel_case_to_pascal_case(input: &str) -> (r: String)
        ensures
            r@ == pascal(input@),
            input@.len() > 0 && (input@[0] as u32) < 128 ==> r@ == seq![ascii_upper(input@[0])]
                + input@.subrange(1, input@.len() as int),
    {
        let v = chars_of(input);
        if v.len() == 0 {
            return input.to_string();
        }
        let first = to_upper_case_char(v[0]);
        let rest = text_between(&v, 1, v.len());
        concat(first.as_str(), rest.as_str())
    }

    /// The service of a library: what stands behind `client-` or `lib-`.
    pub fn extract_service_from_sublibrary(sublibrary: &str) -> (r: Option<String>)
        ensures
            opt_text(r) == service_of(sublibrary@),
    {
        match strip_prefix(sublibrary, "client-") {
            Some(s) => Some(s),
            None => strip_prefix(sublibrary, "lib-"),
        }
    }

    /// The parameters of named arguments, in their order: one for each name.
    pub fn convert_arguments_to_parameters(arguments: &TextMap<String>) -> (r: Vec<Parameter>)
        ensures
            parameter_views(r@) == keyword_parameters(arguments.entry_list()),
            lists_entries(arguments.entry_list(), arguments@),
            r@.len() == arguments@.dom().len(),
            forall|i: int|
                0 <= i < r@.len() ==> ((#[trigger] r@[i])@ matches ParameterView::Keyword {
                    name,
                    value,
                    position,
                    type_annotation,
                } && position == i && type_annotation is None && arguments@.contains_key(name)
                    && value == ParameterValueView::Unresolved(arguments@[name]@)),
    {
        let entries = arguments.entries();
        let ghost s = entries@;
        let mut out: Vec<Parameter> = Vec::new();
        let mut i: usize = 0;
        assert(parameter_views(out@) =~= keyword_parameters(s.subrange(0, 0)));
        while i < entries.len()
            invariant
                i <= entries@.len(),
                s == entries@,
                parameter_views(out@) == keyword_parameters(s.subrange(0, i as int)),
            decreases entries@.len() - i,
        {
            let ghost before = parameter_views(out@);
            let p = Parameter::Keyword {
                name: entries[i].0.clone(),
                value: ParameterValue::Unresolved(entries[i].1.clone()),
                position: i,
                type_annotation: None,
            };
            let ghost x = p@;
            out.push(p);
            proof {
                let t = s.subrange(0, i as int);
                let v = s.subrange(0, i + 1);
                assert(parameter_views(out@) =~= before.push(x));
                assert forall|k: int| 0 <= k < i implies keyword_parameters(v)[k]
                    == keyword_parameters(t)[k] by {
                    assert(v[k] == t[k]);
                }
                assert(keyword_parameters(v) =~= before.push(x));
            }
            i = i + 1;
        }
        assert(s.subrange(0, s.len() as int) =~= s);
        proof {
            entries_are_counted(s, arguments@);
            assert(parameter_views(out@).len() == out@.len());
            assert forall|i: int| 0 <= i < out@.len() implies (#[trigger] out@[i])@
                == keyword_parameters(s)[i] by {
                assert(parameter_views(out@)[i] == out@[i]@);
            }
        }
        out
    }

    /// The names that a name stands for.
    pub fn expand_lib_names(
        is_lib: bool,
        service: &str,
        name: &str,
        lib_mappings: &Option<JsV3LibrariesMapping>,
    ) -> (r: Vec<String>)
        ensures
            texts(r@) == expanded_names(is_lib, service@, name@, *lib_mappings),
    {
        if is_lib {
            if let Some(m) = lib_mappings {
                if let Some(v) = find_expansion(m, service, name) {
                    return copy_texts(v);
                }
            }
        }
        let mut out: Vec<String> = Vec::new();
        out.push(name.to_string());
        assert(texts(out@) =~= seq![name@]);
        out
    }

    /// The call of an operation at the place of a use.
    pub fn build_sdk_method_call(
        operation_name: &str,
        service: &str,
        usage: &CommandUsage,
    ) -> (r: SdkMethodCall)
        ensures
            r@ == call_at(operation_name@, service@, usage@),
    {
        let metadata = SdkMethodCallMetadata::new(
            usage.text.clone(),
            usage.location.clone(),
        ).with_parameters(copy_parameters(&usage.parameters));
        let mut possible_services: Vec<String> = Vec::new();
        possible_services.push(service.to_string());
        assert(texts(possible_services@) =~= seq![service@]);
        SdkMethodCall {
            name: operation_name.to_string(),
            possible_services,
            metadata: Some(metadata),
        }
    }
}

proof fn lemma_imports_without_mappings(
    kind: ImportKind,
    lib: bool,
    service: Seq<char>,
    imports: Seq<ImportInfo>,
    u: ScanUsages,
    mappings: Option<JsV3LibrariesMapping>,
)
    requires
        kind == ImportKind::Waiter || kind == ImportKind::CommandInput,
    ensures
        calls_of_imports(kind, lib, service, imports, u, mappings) == calls_of_imports(
            kind,
            lib,
            service,
            imports,
            u,
            None,
        ),
    decreases imports.len(),
{
    if imports.len() > 0 {
        lemma_imports_without_mappings(kind, lib, service, imports.drop_last(), u, mappings);
    }
}

proof fn lemma_namespace_without_mappings(
    kind: ImportKind,
    lib: bool,
    service: Seq<char>,
    found: Seq<(String, CommandUsage)>,
    mappings: Option<JsV3LibrariesMapping>,
)
    requires
        kind == ImportKind::Waiter || kind == ImportKind::CommandInput,
    ensures
        calls_of_namespace(kind, lib, service, found, mappings) == calls_of_namespace(
            kind,
            lib,
            service,
            found,
            None,
        ),
    decreases found.len(),
{
    if found.len() > 0 {
        lemma_namespace_without_mappings(kind, lib, service, found.drop_last(), mappings);
    }
}

proof fn lemma_mappings_do_not_matter(
    kind: ImportKind,
    subs: Seq<SublibraryInfo>,
    u: ScanUsages,
    mappings: Option<JsV3LibrariesMapping>,
)
    requires
        kind == ImportKind::Waiter || kind == ImportKind::CommandInput,
    ensures
        calls_of_kind(kind, subs, u, mappings) == calls_of_kind(kind, subs, u, None),
    decreases subs.len(),
{
    if subs.len() > 0 {
        lemma_mappings_do_not_matter(kind, subs.drop_last(), u, mappings);
        let s = subs.last();
        if let Some(service) = service_of(s.sublibrary@) {
            let lib = is_lib(s.sublibrary@);
            lemma_imports_without_mappings(kind, lib, service, s.imports@, u, mappings);
            if let Some(namespace) = s.wildcard_namespace {
                lemma_namespace_without_mappings(
                    kind,
                    lib,
                    service,
                    namespace_of(kind, u, namespace@),
                    mappings,
                );
            }
        }
    }
}

/// A name that is handled as a command, a paginator, a waiter or a type of inputs adds no call as a
/// class of an auxiliary library.
pub proof fn handled_names_add_no_call(
    service: Seq<char>,
    imports: Seq<ImportInfo>,
    u: ScanUsages,
    m: JsV3LibrariesMapping,
    handled: Seq<Seq<char>>,
)
    requires
        forall|i: int|
            0 <= i < imports.len() ==> handled.contains((#[trigger] imports[i]).original_name@),
    ensures
        library_calls_of_imports(service, imports, u, m, handled) == Seq::<SdkCallView>::empty(),
    decreases imports.len(),
{
    if imports.len() > 0 {
        let t = imports.drop_last();
        assert forall|i: int| 0 <= i < t.len() implies handled.contains(
            (#[trigger] t[i]).original_name@,
        ) by {
            assert(t[i] == imports[i]);
        }
        handled_names_add_no_call(service, t, u, m, handled);
        assert(handled.contains(imports[imports.len() - 1].original_name@));
    }
}

/// What is imported from a library of which no service is known adds no call.
pub proof fn unknown_libraries_add_no_call(
    kind: ImportKind,
    s: SublibraryInfo,
    u: ScanUsages,
    mappings: Option<JsV3LibrariesMapping>,
)
    requires
        !has_prefix(s.sublibrary@, "client-"@),
        !has_prefix(s.sublibrary@, "lib-"@),
    ensures
        calls_of_sublibrary(kind, s, u, mappings) == Seq::<SdkCallView>::empty(),
        names_of_sublibrary(kind, s, u) == Seq::<Seq<char>>::empty(),
{
}

} // verus!
