//! Which services a call may belong to.

use vstd::prelude::*;

use crate::java::imports::{
    extract_service_from_fqn, last_segment, service_segment,
};
use crate::java::types::{
    opt_declaration, receiver_type, receiver_type_of, DeclarationView, Import, ImportView,
    ReceiverDeclaration,
};
use crate::paths::{path_components, same_path};
use crate::text::{
    concat, contains_text, opt_text, remove_char, same, split_on, texts, without,
};
use crate::text_map::TextMap;

verus! {

/// An operation of a service.
#[derive(Debug, PartialEq, Eq)]
pub struct ServiceMethodRef {
    pub service_name: String,
    pub operation_name: String,
}

pub struct RefView {
    pub service_name: Seq<char>,
    pub operation_name: Seq<char>,
}

impl View for ServiceMethodRef {
    type V = RefView;

    open spec fn view(&self) -> RefView {
        RefView { service_name: self.service_name@, operation_name: self.operation_name@ }
    }
}

pub open spec fn ref_views(v: Seq<ServiceMethodRef>) -> Seq<RefView> {
    v.map_values(|r: ServiceMethodRef| r@)
}

/// What is known of a service itself.
#[derive(Debug)]
pub struct SdkServiceDefinition {
    /// The name of the service in its model, such as `CloudWatch Logs`.
    pub service_id: String,
}

/// The operations of all services, found by the name of a method.
#[derive(Debug)]
pub struct ServiceModelIndex {
    pub services: TextMap<SdkServiceDefinition>,
    /// From the name of a method to the operations that it may call.
    pub method_lookup: TextMap<Vec<ServiceMethodRef>>,
    /// From the name of a waiter to the operations that it may poll.
    pub waiter_lookup: TextMap<Vec<ServiceMethodRef>>,
}

pub struct IndexView {
    pub service_ids: Map<Seq<char>, Seq<char>>,
    pub methods: Map<Seq<char>, Seq<RefView>>,
    pub waiters: Map<Seq<char>, Seq<RefView>>,
}

impl View for ServiceModelIndex {
    type V = IndexView;

    open spec fn view(&self) -> IndexView {
        IndexView {
            service_ids: self.services@.map_values(|d: SdkServiceDefinition| d.service_id@),
            methods: self.method_lookup@.map_values(|v: Vec<ServiceMethodRef>| ref_views(v@)),
            waiters: self.waiter_lookup@.map_values(|v: Vec<ServiceMethodRef>| ref_views(v@)),
        }
    }
}

pub open spec fn ref_services(refs: Seq<RefView>) -> Seq<Seq<char>> {
    refs.map_values(|r: RefView| r.service_name)
}

/// The texts of `s` that `p` accepts, in their order.
pub open spec fn kept(s: Seq<Seq<char>>, p: spec_fn(Seq<char>) -> bool) -> Seq<Seq<char>>
    decreases s.len(),
{
    if s.len() == 0 {
        s
    } else if p(s.last()) {
        kept(s.drop_last(), p).push(s.last())
    } else {
        kept(s.drop_last(), p)
    }
}

pub open spec fn is_text(x: Seq<char>) -> spec_fn(Seq<char>) -> bool {
    |s: Seq<char>| s == x
}

pub open spec fn is_one_of(set: Seq<Seq<char>>) -> spec_fn(Seq<char>) -> bool {
    |s: Seq<char>| set.contains(s)
}

/// The services that are left when imports narrow the choice. No import narrows nothing.
pub open spec fn import_filtered(
    services: Seq<Seq<char>>,
    imported: Seq<Seq<char>>,
) -> Seq<Seq<char>> {
    if imported.len() == 0 {
        services
    } else {
        kept(services, is_one_of(imported))
    }
}

/// The services of the imports of the file `path`.
pub open spec fn services_imported(imports: Seq<ImportView>, path: Seq<char>) -> Seq<Seq<char>>
    decreases imports.len(),
{
    if imports.len() == 0 {
        Seq::empty()
    } else if path_components(imports.last().location.file_path) == path_components(path) {
        services_imported(imports.drop_last(), path).push(imports.last().service)
    } else {
        services_imported(imports.drop_last(), path)
    }
}

/// The service of the first import of the file `path` whose last segment is `name`.
pub open spec fn service_of_class(
    imports: Seq<ImportView>,
    path: Seq<char>,
    name: Seq<char>,
) -> Option<Seq<char>>
    decreases imports.len(),
{
    if imports.len() == 0 {
        None
    } else if path_components(imports[0].location.file_path) == path_components(path)
        && split_on(imports[0].expr, '.').last() == name {
        Some(imports[0].service)
    } else {
        service_of_class(imports.subrange(1, imports.len() as int), path, name)
    }
}

/// Whether `name` is the name of the service without spaces, with one of the suffixes behind it.
pub open spec fn is_class_of(
    ids: Map<Seq<char>, Seq<char>>,
    name: Seq<char>,
    suffixes: Seq<Seq<char>>,
) -> spec_fn(Seq<char>) -> bool {
    |service: Seq<char>|
        ids.contains_key(service) && some_suffix_gives(without(ids[service], ' '), suffixes, name)
}

/// Whether one of the suffixes behind `base` gives `name`.
pub open spec fn some_suffix_gives(
    base: Seq<char>,
    suffixes: Seq<Seq<char>>,
    name: Seq<char>,
) -> bool {
    exists|i: int| 0 <= i < suffixes.len() && base + #[trigger] suffixes[i] == name
}

/// The services to which a variable of the type `name` can belong.
pub open spec fn services_of_type(
    name: Seq<char>,
    suffixes: Seq<Seq<char>>,
    services: Seq<Seq<char>>,
    imports: Seq<ImportView>,
    path: Seq<char>,
    ids: Map<Seq<char>, Seq<char>>,
) -> Seq<Seq<char>> {
    match service_segment(name) {
        Some(service) => kept(services, is_text(service)),
        None => match service_of_class(imports, path, name) {
            Some(service) => kept(services, is_text(service)),
            None => kept(services, is_class_of(ids, name, suffixes)),
        },
    }
}

/// The services that a call in the file `path` may belong to: by the type of its receiver where
/// that is known, else by the imports of the file.
pub open spec fn possible_services(
    receiver: Option<DeclarationView>,
    suffixes: Seq<Seq<char>>,
    services: Seq<Seq<char>>,
    imports: Seq<ImportView>,
    path: Seq<char>,
    ids: Map<Seq<char>, Seq<char>>,
) -> Seq<Seq<char>> {
    match receiver_type_of(receiver) {
        Some(name) => services_of_type(name, suffixes, services, imports, path, ids),
        None => import_filtered(services, services_imported(imports, path)),
    }
}

fn keep_service(services: &Vec<String>, service: &str) -> (r: Vec<String>)
    ensures
        texts(r@) == kept(texts(services@), is_text(service@)),
{
    let mut out: Vec<String> = Vec::new();
    let ghost s = texts(services@);
    let ghost p = is_text(service@);
    let mut i: usize = 0;
    assert(texts(out@) =~= s.subrange(0, 0));
    while i < services.len()
        invariant
            i <= services@.len(),
            s == texts(services@),
            p == is_text(service@),
            texts(out@) == kept(s.subrange(0, i as int), p),
        decreases services@.len() - i,
    {
        let ghost u = s.subrange(0, i + 1);
        let ghost before = texts(out@);
        assert(u.drop_last() =~= s.subrange(0, i as int));
        assert(u.last() == services@[i as int]@);
        if same(services[i].as_str(), service) {
            out.push(services[i].clone());
            assert(texts(out@) =~= before.push(services@[i as int]@));
        }
        i = i + 1;
    }
    assert(s.subrange(0, s.len() as int) =~= s);
    out
}

/// The services that are left when imports narrow the choice. No import narrows nothing.
pub fn apply_import_filter(services: Vec<String>, imported: &Vec<String>) -> (r: Vec<String>)
    ensures
        texts(r@) == import_filtered(texts(services@), texts(imported@)),
{
    assert(texts(imported@).len() == imported@.len());
    if imported.len() == 0 {
        return services;
    }
    let mut out: Vec<String> = Vec::new();
    let ghost s = texts(services@);
    let ghost p = is_one_of(texts(imported@));
    let mut i: usize = 0;
    assert(texts(out@) =~= s.subrange(0, 0));
    while i < services.len()
        invariant
            i <= services@.len(),
            s == texts(services@),
            p == is_one_of(texts(imported@)),
            texts(out@) == kept(s.subrange(0, i as int), p),
        decreases services@.len() - i,
    {
        let ghost u = s.subrange(0, i + 1);
        let ghost before = texts(out@);
        assert(u.drop_last() =~= s.subrange(0, i as int));
        assert(u.last() == services@[i as int]@);
        if contains_text(imported, services[i].as_str()) {
            out.push(services[i].clone());
            assert(texts(out@) =~= before.push(services@[i as int]@));
        }
        i = i + 1;
    }
    assert(s.subrange(0, s.len() as int) =~= s);
    out
}

pub open spec fn import_views(v: Seq<Import>) -> Seq<ImportView> {
    v.map_values(|x: Import| x@)
}

/// The services of the imports of the file `path`.
pub fn imported_services(imports: &Vec<Import>, path: &str) -> (r: Vec<String>)
    ensures
        texts(r@) == services_imported(import_views(imports@), path@),
{
    let mut out: Vec<String> = Vec::new();
    let ghost s = import_views(imports@);
    let mut i: usize = 0;
    assert(texts(out@) =~= Seq::<Seq<char>>::empty());
    assert(s.subrange(0, 0).len() == 0);
    while i < imports.len()
        invariant
            i <= imports@.len(),
            s == import_views(imports@),
            texts(out@) == services_imported(s.subrange(0, i as int), path@),
        decreases imports@.len() - i,
    {
        let ghost u = s.subrange(0, i + 1);
        let ghost before = texts(out@);
        assert(u.drop_last() =~= s.subrange(0, i as int));
        assert(u.last() == imports@[i as int]@);
        if same_path(imports[i].location.file_path.as_str(), path) {
            out.push(imports[i].service.clone());
            assert(texts(out@) =~= before.push(imports@[i as int].service@));
        }
        i = i + 1;
    }
    assert(s.subrange(0, s.len() as int) =~= s);
    out
}

fn find_class_service(imports: &Vec<Import>, path: &str, name: &str) -> (r: Option<String>)
    ensures
        opt_text(r) == service_of_class(import_views(imports@), path@, name@),
{
    let ghost s = import_views(imports@);
    let mut i: usize = 0;
    assert(s.subrange(0, s.len() as int) =~= s);
    while i < imports.len()
        invariant
            i <= imports@.len(),
            s == import_views(imports@),
            service_of_class(s, path@, name@) == service_of_class(
                s.subrange(i as int, s.len() as int),
                path@,
                name@,
            ),
        decreases imports@.len() - i,
    {
        proof {
            let u = s.subrange(i as int, s.len() as int);
            assert(u[0] == imports@[i as int]@);
            assert(u.subrange(1, u.len() as int) =~= s.subrange(i + 1, s.len() as int));
        }
        if same_path(imports[i].location.file_path.as_str(), path) {
            let class = last_segment(imports[i].expr.as_str());
            if same(class.as_str(), name) {
                return Some(imports[i].service.clone());
            }
        }
        i = i + 1;
    }
    None
}

fn suffix_gives(base: &str, suffixes: &Vec<String>, name: &str) -> (r: bool)
    ensures
        r == some_suffix_gives(base@, texts(suffixes@), name@),
{
    let ghost s = texts(suffixes@);
    let mut i: usize = 0;
    while i < suffixes.len()
        invariant
            i <= suffixes@.len(),
            s == texts(suffixes@),
            forall|j: int| 0 <= j < i ==> base@ + #[trigger] s[j] != name@,
        decreases suffixes@.len() - i,
    {
        let class = concat(base, suffixes[i].as_str());
        assert(s[i as int] == suffixes@[i as int]@);
        if same(class.as_str(), name) {
            return true;
        }
        i = i + 1;
    }
    false
}

fn keep_by_class(
    services: &Vec<String>,
    index: &ServiceModelIndex,
    name: &str,
    suffixes: &Vec<String>,
) -> (r: Vec<String>)
    ensures
        texts(r@) == kept(
            texts(services@),
            is_class_of(index@.service_ids, name@, texts(suffixes@)),
        ),
{
    let mut out: Vec<String> = Vec::new();
    let ghost s = texts(services@);
    let ghost p = is_class_of(index@.service_ids, name@, texts(suffixes@));
    let mut i: usize = 0;
    assert(texts(out@) =~= s.subrange(0, 0));
    while i < services.len()
        invariant
            i <= services@.len(),
            s == texts(services@),
            p == is_class_of(index@.service_ids, name@, texts(suffixes@)),
            texts(out@) == kept(s.subrange(0, i as int), p),
        decreases services@.len() - i,
    {
        let ghost u = s.subrange(0, i + 1);
        let ghost before = texts(out@);
        assert(u.drop_last() =~= s.subrange(0, i as int));
        assert(u.last() == services@[i as int]@);
        let matched = match index.services.get(services[i].as_str()) {
            Some(definition) => {
                let base = remove_char(definition.service_id.as_str(), ' ');
                suffix_gives(base.as_str(), suffixes, name)
            },
            None => false,
        };
        if matched {
            out.push(services[i].clone());
            assert(texts(out@) =~= before.push(services@[i as int]@));
        }
        i = i + 1;
    }
    assert(s.subrange(0, s.len() as int) =~= s);
    out
}

/// The services to which a variable of the type `name` can belong. A qualified name tells its
/// service. A simple name is looked up among the imports of the file, then held against the names
/// of the services.
pub fn resolve_services_by_type_name(
    name: &str,
    suffixes: &Vec<String>,
    services: Vec<String>,
    imports: &Vec<Import>,
    path: &str,
    index: &ServiceModelIndex,
) -> (r: Vec<String>)
    ensures
        texts(r@) == services_of_type(
            name@,
            texts(suffixes@),
            texts(services@),
            import_views(imports@),
            path@,
            index@.service_ids,
        ),
{
    match extract_service_from_fqn(name) {
        Some(service) => keep_service(&services, service.as_str()),
        None => match find_class_service(imports, path, name) {
            Some(service) => keep_service(&services, service.as_str()),
            None => keep_by_class(&services, index, name, suffixes),
        },
    }
}

/// The services that a call in the file `path` may belong to.
pub fn resolve_services(
    receiver: &Option<ReceiverDeclaration>,
    suffixes: &Vec<String>,
    services: Vec<String>,
    imports: &Vec<Import>,
    path: &str,
    index: &ServiceModelIndex,
) -> (r: Vec<String>)
    ensures
        texts(r@) == possible_services(
            opt_declaration(*receiver),
            texts(suffixes@),
            texts(services@),
            import_views(imports@),
            path@,
            index@.service_ids,
        ),
{
    match receiver_type(receiver) {
        Some(name) => resolve_services_by_type_name(
            name.as_str(),
            suffixes,
            services,
            imports,
            path,
            index,
        ),
        None => {
            let imported = imported_services(imports, path);
            apply_import_filter(services, &imported)
        },
    }
}

/// The services of the operations.
pub fn services_of(refs: &Vec<ServiceMethodRef>) -> (r: Vec<String>)
    ensures
        texts(r@) == ref_services(ref_views(refs@)),
{
    let mut out: Vec<String> = Vec::new();
    let ghost s = ref_services(ref_views(refs@));
    let mut i: usize = 0;
    assert(texts(out@) =~= s.subrange(0, 0));
    while i < refs.len()
        invariant
            i <= refs@.len(),
            s == ref_services(ref_views(refs@)),
            texts(out@) == s.subrange(0, i as int),
        decreases refs@.len() - i,
    {
        let ghost before = texts(out@);
        out.push(refs[i].service_name.clone());
        assert(texts(out@) =~= before.push(refs@[i as int].service_name@));
        assert(s.subrange(0, i + 1) =~= s.subrange(0, i as int).push(s[i as int]));
        i = i + 1;
    }
    assert(s.subrange(0, s.len() as int) =~= s);
    out
}

proof fn lemma_kept_is_part(s: Seq<Seq<char>>, p: spec_fn(Seq<char>) -> bool, x: Seq<char>)
    ensures
        kept(s, p).contains(x) == (s.contains(x) && p(x)),
    decreases s.len(),
{
    if s.len() > 0 {
        let t = s.drop_last();
        lemma_kept_is_part(t, p, x);
        assert(s.contains(x) == (t.contains(x) || s.last() == x)) by {
            if s.contains(x) && s.last() != x {
                let k = choose|k: int| 0 <= k < s.len() && s[k] == x;
                assert(t[k] == x);
            }
            if t.contains(x) {
                let k = choose|k: int| 0 <= k < t.len() && t[k] == x;
                assert(s[k] == x);
            }
            assert(s[s.len() - 1] == s.last());
        }
        if p(s.last()) {
            let u = kept(t, p);
            let w = u.push(s.last());
            assert(w.contains(x) == (u.contains(x) || s.last() == x)) by {
                if w.contains(x) && s.last() != x {
                    let k = choose|k: int| 0 <= k < w.len() && w[k] == x;
                    assert(u[k] == x);
                }
                if u.contains(x) {
                    let k = choose|k: int| 0 <= k < u.len() && u[k] == x;
                    assert(w[k] == x);
                }
                assert(w[w.len() - 1] == s.last());
            }
        }
    }
}

/// Narrowing never adds a service: every service that a call may belong to is one of those that
/// have an operation of its name.
pub proof fn narrowing_adds_no_service(
    receiver: Option<DeclarationView>,
    suffixes: Seq<Seq<char>>,
    services: Seq<Seq<char>>,
    imports: Seq<ImportView>,
    path: Seq<char>,
    ids: Map<Seq<char>, Seq<char>>,
    x: Seq<char>,
)
    requires
        possible_services(receiver, suffixes, services, imports, path, ids).contains(x),
    ensures
        services.contains(x),
{
    match receiver_type_of(receiver) {
        Some(name) => {
            match service_segment(name) {
                Some(service) => lemma_kept_is_part(services, is_text(service), x),
                None => match service_of_class(imports, path, name) {
                    Some(service) => lemma_kept_is_part(services, is_text(service), x),
                    None => lemma_kept_is_part(services, is_class_of(ids, name, suffixes), x),
                },
            }
        },
        None => {
            lemma_kept_is_part(services, is_one_of(services_imported(imports, path)), x);
        },
    }
}

/// Imports of other files do not matter to a call.
pub proof fn imports_of_other_files_do_not_matter(
    receiver: Option<DeclarationView>,
    suffixes: Seq<Seq<char>>,
    services: Seq<Seq<char>>,
    imports: Seq<ImportView>,
    other: ImportView,
    path: Seq<char>,
    ids: Map<Seq<char>, Seq<char>>,
)
    requires
        path_components(other.location.file_path) != path_components(path),
    ensures
        possible_services(receiver, suffixes, services, imports.push(other), path, ids)
            == possible_services(receiver, suffixes, services, imports, path, ids),
{
    let more = imports.push(other);
    assert(more.drop_last() =~= imports);
    assert(services_imported(more, path) == services_imported(imports, path));
    match receiver_type_of(receiver) {
        Some(name) => lemma_class_of_other_file(imports, other, path, name),
        None => {},
    }
}

proof fn lemma_class_of_other_file(
    imports: Seq<ImportView>,
    other: ImportView,
    path: Seq<char>,
    name: Seq<char>,
)
    requires
        path_components(other.location.file_path) != path_components(path),
    ensures
        service_of_class(imports.push(other), path, name) == service_of_class(imports, path, name),
    decreases imports.len(),
{
    let more = imports.push(other);
    if imports.len() == 0 {
        assert(more[0] == other);
        assert(service_of_class(more.subrange(1, more.len() as int), path, name) is None);
    } else {
        let rest = imports.subrange(1, imports.len() as int);
        lemma_class_of_other_file(rest, other, path, name);
        assert(more.subrange(1, more.len() as int) =~= rest.push(other));
        assert(more[0] == imports[0]);
    }
}

} // verus!
