//! Files are matched one by one: neither the other files nor their order matter.

use vstd::multiset::Multiset;
use vstd::prelude::*;
use vstd::seq_lib::lemma_multiset_commutative;

use crate::call_order::{call_location, calls_are_ordered, ranks_share_their_place};
use crate::java::ast::NodeView;
use crate::java::extractor::{all_labels, found_at, found_by, found_in, rule_of, SdkExtractor};
use crate::java::imports::ImportTablesView;
use crate::java::matcher::{
    all_matched, client_suffixes, matched_call, matched_calls,
    matched_paginator, matched_paginators, matched_waiter, matched_waiters, one_or_none,
    operation_of_method, waiter_suffixes,
};
use crate::java::pipeline::{found_in_file, found_in_files, sorted_matches};
use crate::java::scan::{java_scan, MatchView};
use crate::java::services::{
    is_one_of, kept, possible_services, ref_services, service_of_class, services_imported,
    IndexView, ServiceModelIndex,
};
use crate::java::types::{
    both_found, nothing_found, receiver_type_of, CallView, DeclarationView, ExtractionView, ImportView,
    PaginatorView, UtilityImportView, WaiterView,
};
use crate::java::utilities::{
    calls_by_features, calls_by_services, class_is_imported, utility_calls, FeatureView,
    JavaUtilitiesModel, ModelView, UtilityServiceView,
};
use crate::language::{Language, SourceFile};
use crate::order::{order_of, ranks_with, sorting_keeps_the_items, sorting_looks_at_ranks};
use crate::paths::path_components;
use crate::sdk::{LocationView, SdkCallView, SdkMethodCall};

verus! {

/// Whether the place is in the file `path`.
pub open spec fn in_file(l: LocationView, path: Seq<char>) -> bool {
    path_components(l.file_path) == path_components(path)
}

/// Whether something that was found lies in the file `path`.
pub open spec fn is_file_of(x: ExtractionView, path: Seq<char>) -> bool {
    ||| exists|i: int| 0 <= i < x.imports.len() && in_file((#[trigger] x.imports[i]).location, path)
    ||| exists|i: int|
        0 <= i < x.utility_imports.len() && in_file(
            (#[trigger] x.utility_imports[i]).location,
            path,
        )
    ||| exists|i: int| 0 <= i < x.calls.len() && in_file((#[trigger] x.calls[i]).location, path)
    ||| exists|i: int| 0 <= i < x.waiters.len() && in_file((#[trigger] x.waiters[i]).location, path)
    ||| exists|i: int|
        0 <= i < x.paginators.len() && in_file((#[trigger] x.paginators[i]).location, path)
}

/// The two lists of imports say the same about the file `path`: the same services are imported, and
/// every class name stands for the same service.
pub open spec fn same_for(x: Seq<ImportView>, y: Seq<ImportView>, path: Seq<char>) -> bool {
    &&& forall|s: Seq<char>|
        #![trigger services_imported(x, path).contains(s)]
        #![trigger services_imported(y, path).contains(s)]
        services_imported(x, path).contains(s) == services_imported(y, path).contains(s)
    &&& forall|name: Seq<char>| #[trigger]
        service_of_class(x, path, name) == service_of_class(y, path, name)
}

/// The two lists of imports bring the same utility classes into scope in the file `path`.
pub open spec fn same_classes(
    x: Seq<UtilityImportView>,
    y: Seq<UtilityImportView>,
    path: Seq<char>,
) -> bool {
    forall|service: Seq<char>, f: FeatureView| #[trigger]
        class_is_imported(x, path, service, f) == class_is_imported(y, path, service, f)
}

/// About a file that both hold something of, the imports of both say the same.
pub open spec fn agree(a: ExtractionView, b: ExtractionView) -> bool {
    forall|path: Seq<char>| #[trigger]
        is_file_of(a, path) && #[trigger] is_file_of(b, path) ==> same_for(
            a.imports,
            b.imports,
            path,
        ) && same_classes(a.utility_imports, b.utility_imports, path)
}

/// What the items of a list give, one after the other.
spec fn gathered<A>(s: Seq<A>, g: spec_fn(A) -> Seq<SdkCallView>) -> Seq<SdkCallView>
    decreases s.len(),
{
    if s.len() == 0 {
        Seq::empty()
    } else {
        gathered(s.drop_last(), g) + g(s.last())
    }
}

proof fn lemma_gathered_add<A>(s: Seq<A>, t: Seq<A>, g: spec_fn(A) -> Seq<SdkCallView>)
    ensures
        gathered(s + t, g) == gathered(s, g) + gathered(t, g),
    decreases t.len(),
{
    if t.len() == 0 {
        assert(s + t =~= s);
        assert(gathered(s, g) + gathered(t, g) =~= gathered(s, g));
    } else {
        lemma_gathered_add(s, t.drop_last(), g);
        assert((s + t).drop_last() =~= s + t.drop_last());
        assert((s + t).last() == t.last());
        assert(gathered(s + t, g) =~= gathered(s, g) + gathered(t, g));
    }
}

proof fn lemma_gathered_same<A>(
    s: Seq<A>,
    g: spec_fn(A) -> Seq<SdkCallView>,
    h: spec_fn(A) -> Seq<SdkCallView>,
)
    requires
        forall|i: int| 0 <= i < s.len() ==> g(#[trigger] s[i]) == h(s[i]),
    ensures
        gathered(s, g) == gathered(s, h),
    decreases s.len(),
{
    if s.len() > 0 {
        let t = s.drop_last();
        assert forall|i: int| 0 <= i < t.len() implies g(#[trigger] t[i]) == h(t[i]) by {
            assert(t[i] == s[i]);
        }
        lemma_gathered_same(t, g, h);
        assert(g(s[s.len() - 1]) == h(s[s.len() - 1]));
    }
}

proof fn lemma_gathered_from<A>(s: Seq<A>, g: spec_fn(A) -> Seq<SdkCallView>, k: int) -> (i: int)
    requires
        0 <= k < gathered(s, g).len(),
    ensures
        0 <= i < s.len(),
        g(s[i]).contains(gathered(s, g)[k]),
    decreases s.len(),
{
    let t = s.drop_last();
    let before = gathered(t, g);
    if k < before.len() {
        let i = lemma_gathered_from(t, g, k);
        assert(t[i] == s[i]);
        assert(gathered(s, g)[k] == before[k]);
        i
    } else {
        assert(gathered(s, g)[k] == g(s.last())[k - before.len()]);
        s.len() - 1
    }
}

spec fn by_call(imports: Seq<ImportView>, index: IndexView) -> spec_fn(CallView) -> Seq<
    SdkCallView,
> {
    |c: CallView| one_or_none(matched_call(c, imports, index))
}

spec fn by_waiter(imports: Seq<ImportView>, index: IndexView) -> spec_fn(WaiterView) -> Seq<
    SdkCallView,
> {
    |w: WaiterView| matched_waiter(w, imports, index)
}

spec fn by_paginator(imports: Seq<ImportView>, index: IndexView) -> spec_fn(PaginatorView) -> Seq<
    SdkCallView,
> {
    |p: PaginatorView| one_or_none(matched_paginator(p, imports, index))
}

spec fn by_utility(imports: Seq<UtilityImportView>, model: ModelView) -> spec_fn(CallView) -> Seq<
    SdkCallView,
> {
    |c: CallView| calls_by_services(c, imports, model)
}

proof fn lemma_calls_gathered(cs: Seq<CallView>, imports: Seq<ImportView>, index: IndexView)
    ensures
        matched_calls(cs, imports, index) == gathered(cs, by_call(imports, index)),
    decreases cs.len(),
{
    if cs.len() > 0 {
        lemma_calls_gathered(cs.drop_last(), imports, index);
    }
}

proof fn lemma_waiters_gathered(ws: Seq<WaiterView>, imports: Seq<ImportView>, index: IndexView)
    ensures
        matched_waiters(ws, imports, index) == gathered(ws, by_waiter(imports, index)),
    decreases ws.len(),
{
    if ws.len() > 0 {
        lemma_waiters_gathered(ws.drop_last(), imports, index);
    }
}

proof fn lemma_paginators_gathered(
    ps: Seq<PaginatorView>,
    imports: Seq<ImportView>,
    index: IndexView,
)
    ensures
        matched_paginators(ps, imports, index) == gathered(ps, by_paginator(imports, index)),
    decreases ps.len(),
{
    if ps.len() > 0 {
        lemma_paginators_gathered(ps.drop_last(), imports, index);
    }
}

proof fn lemma_utilities_gathered(
    cs: Seq<CallView>,
    imports: Seq<UtilityImportView>,
    model: ModelView,
)
    ensures
        utility_calls(cs, imports, model) == gathered(cs, by_utility(imports, model)),
    decreases cs.len(),
{
    if cs.len() > 0 {
        lemma_utilities_gathered(cs.drop_last(), imports, model);
    }
}

/// No import of the list is one of the file `path`.
spec fn none_in(imports: Seq<ImportView>, path: Seq<char>) -> bool {
    forall|i: int| 0 <= i < imports.len() ==> !in_file((#[trigger] imports[i]).location, path)
}

/// No import of the list is one of the file `path`.
spec fn no_utility_in(imports: Seq<UtilityImportView>, path: Seq<char>) -> bool {
    forall|i: int| 0 <= i < imports.len() ==> !in_file((#[trigger] imports[i]).location, path)
}

proof fn lemma_services_imported_add(a: Seq<ImportView>, b: Seq<ImportView>, path: Seq<char>)
    ensures
        services_imported(a + b, path) == services_imported(a, path) + services_imported(b, path),
    decreases b.len(),
{
    if b.len() == 0 {
        assert(a + b =~= a);
        assert(services_imported(a, path) + services_imported(b, path) =~= services_imported(
            a,
            path,
        ));
    } else {
        lemma_services_imported_add(a, b.drop_last(), path);
        assert((a + b).drop_last() =~= a + b.drop_last());
        assert((a + b).last() == b.last());
        assert(services_imported(a + b, path) =~= services_imported(a, path) + services_imported(
            b,
            path,
        ));
    }
}

proof fn lemma_none_imported(a: Seq<ImportView>, path: Seq<char>)
    requires
        none_in(a, path),
    ensures
        services_imported(a, path) == Seq::<Seq<char>>::empty(),
    decreases a.len(),
{
    if a.len() > 0 {
        let t = a.drop_last();
        assert forall|i: int| 0 <= i < t.len() implies !in_file((#[trigger] t[i]).location, path) by {
            assert(t[i] == a[i]);
        }
        lemma_none_imported(t, path);
        assert(!in_file(a[a.len() - 1].location, path));
    }
}

proof fn lemma_class_add(
    a: Seq<ImportView>,
    b: Seq<ImportView>,
    path: Seq<char>,
    name: Seq<char>,
)
    ensures
        service_of_class(a + b, path, name) == (match service_of_class(a, path, name) {
            Some(s) => Some(s),
            None => service_of_class(b, path, name),
        }),
    decreases a.len(),
{
    if a.len() == 0 {
        assert(a + b =~= b);
    } else {
        let rest = a.subrange(1, a.len() as int);
        lemma_class_add(rest, b, path, name);
        assert((a + b).subrange(1, (a + b).len() as int) =~= rest + b);
        assert((a + b)[0] == a[0]);
    }
}

proof fn lemma_no_class(a: Seq<ImportView>, path: Seq<char>, name: Seq<char>)
    requires
        none_in(a, path),
    ensures
        service_of_class(a, path, name) is None,
    decreases a.len(),
{
    if a.len() > 0 {
        let rest = a.subrange(1, a.len() as int);
        assert forall|i: int| 0 <= i < rest.len() implies !in_file(
            (#[trigger] rest[i]).location,
            path,
        ) by {
            assert(rest[i] == a[i + 1]);
        }
        lemma_no_class(rest, path, name);
        assert(!in_file(a[0].location, path));
    }
}

proof fn lemma_contains_add(a: Seq<Seq<char>>, b: Seq<Seq<char>>, s: Seq<char>)
    ensures
        (a + b).contains(s) == (a.contains(s) || b.contains(s)),
{
    let both = a + b;
    if both.contains(s) {
        let i = choose|i: int| 0 <= i < both.len() && both[i] == s;
        if i < a.len() {
            assert(a[i] == s);
        } else {
            assert(b[i - a.len()] == s);
        }
    }
    if a.contains(s) {
        let i = choose|i: int| 0 <= i < a.len() && a[i] == s;
        assert(both[i] == s);
    }
    if b.contains(s) {
        let i = choose|i: int| 0 <= i < b.len() && b[i] == s;
        assert(both[i + a.len()] == s);
    }
}

/// Imports of other files, and those of the same file once more, do not matter.
proof fn lemma_imports_of_others(a: Seq<ImportView>, b: Seq<ImportView>, path: Seq<char>)
    ensures
        none_in(b, path) ==> same_for(a + b, a, path),
        none_in(a, path) ==> same_for(a + b, b, path),
        same_for(a, b, path) ==> same_for(a + b, a, path) && same_for(a + b, b, path),
{
    lemma_services_imported_add(a, b, path);
    if none_in(b, path) {
        lemma_none_imported(b, path);
    }
    if none_in(a, path) {
        lemma_none_imported(a, path);
    }
    assert forall|s: Seq<char>| #[trigger]
        services_imported(a + b, path).contains(s) == (services_imported(a, path).contains(s)
            || services_imported(b, path).contains(s)) by {
        lemma_contains_add(services_imported(a, path), services_imported(b, path), s);
    }
    assert forall|name: Seq<char>|
        {
            &&& none_in(b, path) ==> #[trigger] service_of_class(a + b, path, name)
                == service_of_class(a, path, name)
            &&& none_in(a, path) ==> service_of_class(a + b, path, name) == service_of_class(
                b,
                path,
                name,
            )
            &&& same_for(a, b, path) ==> service_of_class(a + b, path, name) == service_of_class(
                a,
                path,
                name,
            )
        } by {
        lemma_class_add(a, b, path, name);
        if none_in(b, path) {
            lemma_no_class(b, path, name);
        }
        if none_in(a, path) {
            lemma_no_class(a, path, name);
        }
        if same_for(a, b, path) {
            assert(service_of_class(a, path, name) == service_of_class(b, path, name));
        }
    }
}

proof fn lemma_same_kept(
    services: Seq<Seq<char>>,
    x: Seq<Seq<char>>,
    y: Seq<Seq<char>>,
)
    requires
        forall|s: Seq<char>| #[trigger] x.contains(s) == y.contains(s),
    ensures
        kept(services, is_one_of(x)) == kept(services, is_one_of(y)),
    decreases services.len(),
{
    if services.len() > 0 {
        lemma_same_kept(services.drop_last(), x, y);
        assert(x.contains(services.last()) == y.contains(services.last()));
    }
}

proof fn lemma_same_services(
    receiver: Option<DeclarationView>,
    suffixes: Seq<Seq<char>>,
    services: Seq<Seq<char>>,
    x: Seq<ImportView>,
    y: Seq<ImportView>,
    path: Seq<char>,
    ids: Map<Seq<char>, Seq<char>>,
)
    requires
        same_for(x, y, path),
    ensures
        possible_services(receiver, suffixes, services, x, path, ids) == possible_services(
            receiver,
            suffixes,
            services,
            y,
            path,
            ids,
        ),
{
    match receiver_type_of(receiver) {
        Some(name) => {
            assert(service_of_class(x, path, name) == service_of_class(y, path, name));
        },
        None => {
            let u = services_imported(x, path);
            let v = services_imported(y, path);
            if u.len() > 0 {
                assert(u.contains(u[0]));
                assert(v.contains(u[0]));
            }
            if v.len() > 0 {
                assert(v.contains(v[0]));
                assert(u.contains(v[0]));
            }
            lemma_same_kept(services, u, v);
        },
    }
}

proof fn lemma_class_imported_of_others(
    a: Seq<UtilityImportView>,
    b: Seq<UtilityImportView>,
    path: Seq<char>,
    service: Seq<char>,
    f: FeatureView,
)
    ensures
        no_utility_in(b, path) ==> class_is_imported(a + b, path, service, f) == class_is_imported(
            a,
            path,
            service,
            f,
        ),
        no_utility_in(a, path) ==> class_is_imported(a + b, path, service, f) == class_is_imported(
            b,
            path,
            service,
            f,
        ),
        class_is_imported(a + b, path, service, f) == (class_is_imported(a, path, service, f)
            || class_is_imported(b, path, service, f)),
{
    let both = a + b;
    let brings = |u: UtilityImportView|
        in_file(u.location, path) && (u.class_name == f.receiver_class || (u.class_name == "*"@
            && u.utility_name == service));
    if class_is_imported(both, path, service, f) {
        let i = choose|i: int|
            0 <= i < both.len() && in_file((#[trigger] both[i]).location, path) && brings(both[i]);
        if i < a.len() {
            assert(both[i] == a[i]);
        } else {
            assert(both[i] == b[i - a.len()]);
        }
    }
    if class_is_imported(a, path, service, f) {
        let i = choose|i: int|
            0 <= i < a.len() && in_file((#[trigger] a[i]).location, path) && brings(a[i]);
        assert(both[i] == a[i]);
    }
    if class_is_imported(b, path, service, f) {
        let i = choose|i: int|
            0 <= i < b.len() && in_file((#[trigger] b[i]).location, path) && brings(b[i]);
        assert(both[i + a.len()] == b[i]);
    }
}

proof fn lemma_same_by_features(
    c: CallView,
    x: Seq<UtilityImportView>,
    y: Seq<UtilityImportView>,
    service: Seq<char>,
    fs: Seq<FeatureView>,
)
    requires
        same_classes(x, y, c.location.file_path),
    ensures
        calls_by_features(c, x, service, fs) == calls_by_features(c, y, service, fs),
    decreases fs.len(),
{
    if fs.len() > 0 {
        lemma_same_by_features(c, x, y, service, fs.drop_last());
        assert(class_is_imported(x, c.location.file_path, service, fs.last()) == class_is_imported(
            y,
            c.location.file_path,
            service,
            fs.last(),
        ));
    }
}

proof fn lemma_same_by_services(
    c: CallView,
    x: Seq<UtilityImportView>,
    y: Seq<UtilityImportView>,
    ss: Seq<UtilityServiceView>,
)
    requires
        same_classes(x, y, c.location.file_path),
    ensures
        calls_by_services(c, x, ss) == calls_by_services(c, y, ss),
    decreases ss.len(),
{
    if ss.len() > 0 {
        lemma_same_by_services(c, x, y, ss.drop_last());
        lemma_same_by_features(c, x, y, ss.last().name, ss.last().features);
    }
}

/// An extraction that holds nothing of a file has no import of it.
proof fn lemma_others_have_none(x: ExtractionView, path: Seq<char>)
    requires
        !is_file_of(x, path),
    ensures
        none_in(x.imports, path),
        no_utility_in(x.utility_imports, path),
{
}

proof fn lemma_same_for_others(a: ExtractionView, b: ExtractionView, path: Seq<char>)
    requires
        agree(a, b),
    ensures
        is_file_of(a, path) ==> same_for(a.imports + b.imports, a.imports, path) && same_classes(
            a.utility_imports + b.utility_imports,
            a.utility_imports,
            path,
        ),
        is_file_of(b, path) ==> same_for(a.imports + b.imports, b.imports, path) && same_classes(
            a.utility_imports + b.utility_imports,
            b.utility_imports,
            path,
        ),
{
    lemma_imports_of_others(a.imports, b.imports, path);
    lemma_classes_of_others(a.utility_imports, b.utility_imports, path);
    if !is_file_of(a, path) {
        lemma_others_have_none(a, path);
    }
    if !is_file_of(b, path) {
        lemma_others_have_none(b, path);
    }
}

proof fn lemma_classes_of_others(
    a: Seq<UtilityImportView>,
    b: Seq<UtilityImportView>,
    path: Seq<char>,
)
    ensures
        no_utility_in(b, path) ==> same_classes(a + b, a, path),
        no_utility_in(a, path) ==> same_classes(a + b, b, path),
        same_classes(a, b, path) ==> same_classes(a + b, a, path) && same_classes(a + b, b, path),
{
    assert forall|service: Seq<char>, f: FeatureView|
        {
            &&& no_utility_in(b, path) ==> #[trigger] class_is_imported(a + b, path, service, f)
                == class_is_imported(a, path, service, f)
            &&& no_utility_in(a, path) ==> class_is_imported(a + b, path, service, f)
                == class_is_imported(b, path, service, f)
            &&& same_classes(a, b, path) ==> class_is_imported(a + b, path, service, f)
                == class_is_imported(a, path, service, f)
        } by {
        lemma_class_imported_of_others(a, b, path, service, f);
        if same_classes(a, b, path) {
            assert(class_is_imported(a, path, service, f) == class_is_imported(
                b,
                path,
                service,
                f,
            ));
        }
    }
    if same_classes(a, b, path) {
        assert forall|service: Seq<char>, f: FeatureView| #[trigger]
            class_is_imported(a + b, path, service, f) == class_is_imported(
                b,
                path,
                service,
                f,
            ) by {
            assert(class_is_imported(a, path, service, f) == class_is_imported(
                b,
                path,
                service,
                f,
            ));
        }
    }
}

proof fn lemma_merged_calls(a: ExtractionView, b: ExtractionView, index: IndexView)
    requires
        agree(a, b),
    ensures
        matched_calls(a.calls + b.calls, a.imports + b.imports, index) == matched_calls(
            a.calls,
            a.imports,
            index,
        ) + matched_calls(b.calls, b.imports, index),
{
    let im = a.imports + b.imports;
    let g = by_call(im, index);
    lemma_calls_gathered(a.calls + b.calls, im, index);
    lemma_calls_gathered(a.calls, a.imports, index);
    lemma_calls_gathered(b.calls, b.imports, index);
    lemma_gathered_add(a.calls, b.calls, g);
    assert forall|i: int| 0 <= i < a.calls.len() implies g(#[trigger] a.calls[i]) == by_call(
        a.imports,
        index,
    )(a.calls[i]) by {
        let c = a.calls[i];
        assert(in_file(c.location, c.location.file_path));
        assert(is_file_of(a, c.location.file_path));
        lemma_same_for_others(a, b, c.location.file_path);
        lemma_same_matched_call(c, im, a.imports, index);
    }
    assert forall|i: int| 0 <= i < b.calls.len() implies g(#[trigger] b.calls[i]) == by_call(
        b.imports,
        index,
    )(b.calls[i]) by {
        let c = b.calls[i];
        assert(in_file(c.location, c.location.file_path));
        assert(is_file_of(b, c.location.file_path));
        lemma_same_for_others(a, b, c.location.file_path);
        lemma_same_matched_call(c, im, b.imports, index);
    }
    lemma_gathered_same(a.calls, g, by_call(a.imports, index));
    lemma_gathered_same(b.calls, g, by_call(b.imports, index));
}

proof fn lemma_same_matched_call(
    c: CallView,
    x: Seq<ImportView>,
    y: Seq<ImportView>,
    index: IndexView,
)
    requires
        same_for(x, y, c.location.file_path),
    ensures
        matched_call(c, x, index) == matched_call(c, y, index),
{
    let name = operation_of_method(c.method);
    lemma_same_services(
        c.receiver_declaration,
        client_suffixes(),
        ref_services(index.methods[name]),
        x,
        y,
        c.location.file_path,
        index.service_ids,
    );
}

proof fn lemma_merged_waiters(a: ExtractionView, b: ExtractionView, index: IndexView)
    requires
        agree(a, b),
    ensures
        matched_waiters(a.waiters + b.waiters, a.imports + b.imports, index) == matched_waiters(
            a.waiters,
            a.imports,
            index,
        ) + matched_waiters(b.waiters, b.imports, index),
{
    let im = a.imports + b.imports;
    let g = by_waiter(im, index);
    lemma_waiters_gathered(a.waiters + b.waiters, im, index);
    lemma_waiters_gathered(a.waiters, a.imports, index);
    lemma_waiters_gathered(b.waiters, b.imports, index);
    lemma_gathered_add(a.waiters, b.waiters, g);
    assert forall|i: int| 0 <= i < a.waiters.len() implies g(#[trigger] a.waiters[i]) == by_waiter(
        a.imports,
        index,
    )(a.waiters[i]) by {
        let w = a.waiters[i];
        assert(in_file(w.location, w.location.file_path));
        assert(is_file_of(a, w.location.file_path));
        lemma_same_for_others(a, b, w.location.file_path);
        lemma_same_matched_waiter(w, im, a.imports, index);
    }
    assert forall|i: int| 0 <= i < b.waiters.len() implies g(#[trigger] b.waiters[i]) == by_waiter(
        b.imports,
        index,
    )(b.waiters[i]) by {
        let w = b.waiters[i];
        assert(in_file(w.location, w.location.file_path));
        assert(is_file_of(b, w.location.file_path));
        lemma_same_for_others(a, b, w.location.file_path);
        lemma_same_matched_waiter(w, im, b.imports, index);
    }
    lemma_gathered_same(a.waiters, g, by_waiter(a.imports, index));
    lemma_gathered_same(b.waiters, g, by_waiter(b.imports, index));
}

proof fn lemma_same_matched_waiter(
    w: WaiterView,
    x: Seq<ImportView>,
    y: Seq<ImportView>,
    index: IndexView,
)
    requires
        same_for(x, y, w.location.file_path),
    ensures
        matched_waiter(w, x, index) == matched_waiter(w, y, index),
{
    lemma_same_services(
        w.receiver_declaration,
        waiter_suffixes(),
        ref_services(index.waiters[w.name]),
        x,
        y,
        w.location.file_path,
        index.service_ids,
    );
}

proof fn lemma_merged_paginators(a: ExtractionView, b: ExtractionView, index: IndexView)
    requires
        agree(a, b),
    ensures
        matched_paginators(a.paginators + b.paginators, a.imports + b.imports, index)
            == matched_paginators(a.paginators, a.imports, index) + matched_paginators(
            b.paginators,
            b.imports,
            index,
        ),
{
    let im = a.imports + b.imports;
    let g = by_paginator(im, index);
    lemma_paginators_gathered(a.paginators + b.paginators, im, index);
    lemma_paginators_gathered(a.paginators, a.imports, index);
    lemma_paginators_gathered(b.paginators, b.imports, index);
    lemma_gathered_add(a.paginators, b.paginators, g);
    assert forall|i: int| 0 <= i < a.paginators.len() implies g(#[trigger] a.paginators[i])
        == by_paginator(a.imports, index)(a.paginators[i]) by {
        let p = a.paginators[i];
        assert(in_file(p.location, p.location.file_path));
        assert(is_file_of(a, p.location.file_path));
        lemma_same_for_others(a, b, p.location.file_path);
        lemma_same_matched_paginator(p, im, a.imports, index);
    }
    assert forall|i: int| 0 <= i < b.paginators.len() implies g(#[trigger] b.paginators[i])
        == by_paginator(b.imports, index)(b.paginators[i]) by {
        let p = b.paginators[i];
        assert(in_file(p.location, p.location.file_path));
        assert(is_file_of(b, p.location.file_path));
        lemma_same_for_others(a, b, p.location.file_path);
        lemma_same_matched_paginator(p, im, b.imports, index);
    }
    lemma_gathered_same(a.paginators, g, by_paginator(a.imports, index));
    lemma_gathered_same(b.paginators, g, by_paginator(b.imports, index));
}

proof fn lemma_same_matched_paginator(
    p: PaginatorView,
    x: Seq<ImportView>,
    y: Seq<ImportView>,
    index: IndexView,
)
    requires
        same_for(x, y, p.location.file_path),
    ensures
        matched_paginator(p, x, index) == matched_paginator(p, y, index),
{
    lemma_same_services(
        p.receiver_declaration,
        client_suffixes(),
        ref_services(index.methods[p.operation]),
        x,
        y,
        p.location.file_path,
        index.service_ids,
    );
}

proof fn lemma_merged_utilities(a: ExtractionView, b: ExtractionView, model: ModelView)
    requires
        agree(a, b),
    ensures
        utility_calls(a.calls + b.calls, a.utility_imports + b.utility_imports, model)
            == utility_calls(a.calls, a.utility_imports, model) + utility_calls(
            b.calls,
            b.utility_imports,
            model,
        ),
{
    let im = a.utility_imports + b.utility_imports;
    let g = by_utility(im, model);
    lemma_utilities_gathered(a.calls + b.calls, im, model);
    lemma_utilities_gathered(a.calls, a.utility_imports, model);
    lemma_utilities_gathered(b.calls, b.utility_imports, model);
    lemma_gathered_add(a.calls, b.calls, g);
    assert forall|i: int| 0 <= i < a.calls.len() implies g(#[trigger] a.calls[i]) == by_utility(
        a.utility_imports,
        model,
    )(a.calls[i]) by {
        let c = a.calls[i];
        assert(in_file(c.location, c.location.file_path));
        assert(is_file_of(a, c.location.file_path));
        lemma_same_for_others(a, b, c.location.file_path);
        lemma_same_by_services(c, im, a.utility_imports, model);
    }
    assert forall|i: int| 0 <= i < b.calls.len() implies g(#[trigger] b.calls[i]) == by_utility(
        b.utility_imports,
        model,
    )(b.calls[i]) by {
        let c = b.calls[i];
        assert(in_file(c.location, c.location.file_path));
        assert(is_file_of(b, c.location.file_path));
        lemma_same_for_others(a, b, c.location.file_path);
        lemma_same_by_services(c, im, b.utility_imports, model);
    }
    lemma_gathered_same(a.calls, g, by_utility(a.utility_imports, model));
    lemma_gathered_same(b.calls, g, by_utility(b.utility_imports, model));
}

/// Matching what was found in several files together gives the calls that matching each file on
/// its own gives.
pub proof fn files_are_matched_on_their_own(
    a: ExtractionView,
    b: ExtractionView,
    index: IndexView,
    model: ModelView,
)
    requires
        agree(a, b),
    ensures
        all_matched(both_found(a, b), index, model).to_multiset() == all_matched(
            a,
            index,
            model,
        ).to_multiset().add(all_matched(b, index, model).to_multiset()),
{
    lemma_merged_calls(a, b, index);
    lemma_merged_waiters(a, b, index);
    lemma_merged_paginators(a, b, index);
    lemma_merged_utilities(a, b, model);
    let c = matched_calls(a.calls, a.imports, index);
    let d = matched_calls(b.calls, b.imports, index);
    let v = matched_waiters(a.waiters, a.imports, index);
    let w = matched_waiters(b.waiters, b.imports, index);
    let p = matched_paginators(a.paginators, a.imports, index);
    let q = matched_paginators(b.paginators, b.imports, index);
    let t = utility_calls(a.calls, a.utility_imports, model);
    let u = utility_calls(b.calls, b.utility_imports, model);
    lemma_multiset_commutative(c + d + (v + w) + (p + q), t + u);
    lemma_multiset_commutative(c + d + (v + w), p + q);
    lemma_multiset_commutative(c + d, v + w);
    lemma_multiset_commutative(c, d);
    lemma_multiset_commutative(v, w);
    lemma_multiset_commutative(p, q);
    lemma_multiset_commutative(t, u);
    lemma_multiset_commutative(c + v + p, t);
    lemma_multiset_commutative(c + v, p);
    lemma_multiset_commutative(c, v);
    lemma_multiset_commutative(d + w + q, u);
    lemma_multiset_commutative(d + w, q);
    lemma_multiset_commutative(d, w);
    assert(all_matched(both_found(a, b), index, model).to_multiset() =~= all_matched(
        a,
        index,
        model,
    ).to_multiset().add(all_matched(b, index, model).to_multiset()));
}

proof fn lemma_feature_calls_lie(
    c: CallView,
    imports: Seq<UtilityImportView>,
    service: Seq<char>,
    fs: Seq<FeatureView>,
    k: int,
)
    requires
        0 <= k < calls_by_features(c, imports, service, fs).len(),
    ensures
        call_location(calls_by_features(c, imports, service, fs)[k]) == Some(c.location),
    decreases fs.len(),
{
    let before = calls_by_features(c, imports, service, fs.drop_last());
    if k < before.len() {
        lemma_feature_calls_lie(c, imports, service, fs.drop_last(), k);
    }
}

proof fn lemma_service_calls_lie(
    c: CallView,
    imports: Seq<UtilityImportView>,
    ss: Seq<UtilityServiceView>,
    k: int,
)
    requires
        0 <= k < calls_by_services(c, imports, ss).len(),
    ensures
        call_location(calls_by_services(c, imports, ss)[k]) == Some(c.location),
    decreases ss.len(),
{
    let before = calls_by_services(c, imports, ss.drop_last());
    if k < before.len() {
        lemma_service_calls_lie(c, imports, ss.drop_last(), k);
    } else {
        lemma_feature_calls_lie(
            c,
            imports,
            ss.last().name,
            ss.last().features,
            k - before.len(),
        );
    }
}

/// Every call of an extraction lies in a file of it.
proof fn lemma_matched_lies(x: ExtractionView, index: IndexView, model: ModelView, k: int)
    requires
        0 <= k < all_matched(x, index, model).len(),
    ensures
        call_location(all_matched(x, index, model)[k]) matches Some(l) && is_file_of(x, l.file_path),
{
    let r = all_matched(x, index, model)[k];
    let c = matched_calls(x.calls, x.imports, index);
    let w = matched_waiters(x.waiters, x.imports, index);
    let p = matched_paginators(x.paginators, x.imports, index);
    let u = utility_calls(x.calls, x.utility_imports, model);
    lemma_calls_gathered(x.calls, x.imports, index);
    lemma_waiters_gathered(x.waiters, x.imports, index);
    lemma_paginators_gathered(x.paginators, x.imports, index);
    lemma_utilities_gathered(x.calls, x.utility_imports, model);
    if k < c.len() {
        assert(r == c[k]);
        let i = lemma_gathered_from(x.calls, by_call(x.imports, index), k);
        assert(call_location(r) == Some(x.calls[i].location));
        assert(in_file(x.calls[i].location, x.calls[i].location.file_path));
    } else if k < c.len() + w.len() {
        assert(r == w[k - c.len()]);
        let i = lemma_gathered_from(x.waiters, by_waiter(x.imports, index), k - c.len());
        let g = matched_waiter(x.waiters[i], x.imports, index);
        let m = choose|m: int| 0 <= m < g.len() && g[m] == r;
        assert(call_location(g[m]) == Some(x.waiters[i].location));
        assert(in_file(x.waiters[i].location, x.waiters[i].location.file_path));
    } else if k < c.len() + w.len() + p.len() {
        assert(r == p[k - c.len() - w.len()]);
        let i = lemma_gathered_from(
            x.paginators,
            by_paginator(x.imports, index),
            k - c.len() - w.len(),
        );
        assert(call_location(r) == Some(x.paginators[i].location));
        assert(in_file(x.paginators[i].location, x.paginators[i].location.file_path));
    } else {
        assert(r == u[k - c.len() - w.len() - p.len()]);
        let i = lemma_gathered_from(
            x.calls,
            by_utility(x.utility_imports, model),
            k - c.len() - w.len() - p.len(),
        );
        let g = calls_by_services(x.calls[i], x.utility_imports, model);
        let m = choose|m: int| 0 <= m < g.len() && g[m] == r;
        lemma_service_calls_lie(x.calls[i], x.utility_imports, model, m);
        assert(in_file(x.calls[i].location, x.calls[i].location.file_path));
    }
}

spec fn rank_of(r: SdkCallView) -> spec_fn(SdkCallView) -> bool {
    ranks_with(r, order_of::<SdkMethodCall>())
}

/// Whether a call lies in a file of the extraction.
spec fn lies_in(r: SdkCallView, x: ExtractionView) -> bool {
    call_location(r) matches Some(l) && is_file_of(x, l.file_path)
}

proof fn lemma_filter_none<A>(s: Seq<A>, p: spec_fn(A) -> bool)
    requires
        forall|k: int| 0 <= k < s.len() ==> !p(#[trigger] s[k]),
    ensures
        s.filter(p) == Seq::<A>::empty(),
    decreases s.len(),
{
    reveal(Seq::filter);
    if s.len() > 0 {
        let t = s.drop_last();
        assert forall|k: int| 0 <= k < t.len() implies !p(#[trigger] t[k]) by {
            assert(t[k] == s[k]);
        }
        lemma_filter_none(t, p);
        assert(!p(s[s.len() - 1]));
    } else {
        assert(s =~= Seq::<A>::empty());
    }
}

/// No call of an extraction has the rank of a call that lies in none of its files.
proof fn lemma_no_such_rank(
    x: ExtractionView,
    index: IndexView,
    model: ModelView,
    r: SdkCallView,
)
    requires
        !lies_in(r, x),
    ensures
        all_matched(x, index, model).filter(rank_of(r)) == Seq::<SdkCallView>::empty(),
{
    let s = all_matched(x, index, model);
    assert forall|k: int| 0 <= k < s.len() implies !rank_of(r)(#[trigger] s[k]) by {
        lemma_matched_lies(x, index, model, k);
        if rank_of(r)(s[k]) {
            ranks_share_their_place(s[k], r);
            let l = call_location(s[k])->0;
            let m = call_location(r)->0;
            assert(in_file(l, m.file_path));
            lemma_same_file(x, l.file_path, m.file_path);
        }
    }
    lemma_filter_none(s, rank_of(r));
}

proof fn lemma_same_file(x: ExtractionView, a: Seq<char>, b: Seq<char>)
    requires
        path_components(a) == path_components(b),
    ensures
        is_file_of(x, a) == is_file_of(x, b),
{
    if is_file_of(x, a) {
        lemma_file_carries_over(x, a, b);
    }
    if is_file_of(x, b) {
        lemma_file_carries_over(x, b, a);
    }
}

proof fn lemma_file_carries_over(x: ExtractionView, a: Seq<char>, b: Seq<char>)
    requires
        path_components(a) == path_components(b),
        is_file_of(x, a),
    ensures
        is_file_of(x, b),
{
    if exists|i: int| 0 <= i < x.imports.len() && in_file((#[trigger] x.imports[i]).location, a) {
        let i = choose|i: int|
            0 <= i < x.imports.len() && in_file((#[trigger] x.imports[i]).location, a);
        assert(in_file(x.imports[i].location, b));
    } else if exists|i: int|
        0 <= i < x.utility_imports.len() && in_file((#[trigger] x.utility_imports[i]).location, a) {
        let i = choose|i: int|
            0 <= i < x.utility_imports.len() && in_file(
                (#[trigger] x.utility_imports[i]).location,
                a,
            );
        assert(in_file(x.utility_imports[i].location, b));
    } else if exists|i: int|
        0 <= i < x.calls.len() && in_file((#[trigger] x.calls[i]).location, a) {
        let i = choose|i: int|
            0 <= i < x.calls.len() && in_file((#[trigger] x.calls[i]).location, a);
        assert(in_file(x.calls[i].location, b));
    } else if exists|i: int|
        0 <= i < x.waiters.len() && in_file((#[trigger] x.waiters[i]).location, a) {
        let i = choose|i: int|
            0 <= i < x.waiters.len() && in_file((#[trigger] x.waiters[i]).location, a);
        assert(in_file(x.waiters[i].location, b));
    } else {
        let i = choose|i: int|
            0 <= i < x.paginators.len() && in_file((#[trigger] x.paginators[i]).location, a);
        assert(in_file(x.paginators[i].location, b));
    }
}

proof fn lemma_filter_of_four(
    a: Seq<SdkCallView>,
    b: Seq<SdkCallView>,
    c: Seq<SdkCallView>,
    d: Seq<SdkCallView>,
    f: spec_fn(SdkCallView) -> bool,
)
    ensures
        (a + b + c + d).filter(f) == a.filter(f) + b.filter(f) + c.filter(f) + d.filter(f),
{
    Seq::filter_distributes_over_add(a + b + c, d, f);
    Seq::filter_distributes_over_add(a + b, c, f);
    Seq::filter_distributes_over_add(a, b, f);
}

/// All that was found lies in the file `path`.
spec fn only_in(x: ExtractionView, path: Seq<char>) -> bool {
    forall|p: Seq<char>| #[trigger]
        is_file_of(x, p) ==> path_components(p) == path_components(path)
}

proof fn lemma_file_of_both(a: ExtractionView, b: ExtractionView, path: Seq<char>)
    requires
        is_file_of(both_found(a, b), path),
    ensures
        is_file_of(a, path) || is_file_of(b, path),
{
    let x = both_found(a, b);
    if exists|i: int| 0 <= i < x.imports.len() && in_file((#[trigger] x.imports[i]).location, path) {
        let i = choose|i: int|
            0 <= i < x.imports.len() && in_file((#[trigger] x.imports[i]).location, path);
        if i < a.imports.len() {
            assert(x.imports[i] == a.imports[i]);
        } else {
            assert(x.imports[i] == b.imports[i - a.imports.len()]);
        }
    } else if exists|i: int|
        0 <= i < x.utility_imports.len() && in_file(
            (#[trigger] x.utility_imports[i]).location,
            path,
        ) {
        let i = choose|i: int|
            0 <= i < x.utility_imports.len() && in_file(
                (#[trigger] x.utility_imports[i]).location,
                path,
            );
        if i < a.utility_imports.len() {
            assert(x.utility_imports[i] == a.utility_imports[i]);
        } else {
            assert(x.utility_imports[i] == b.utility_imports[i - a.utility_imports.len()]);
        }
    } else if exists|i: int|
        0 <= i < x.calls.len() && in_file((#[trigger] x.calls[i]).location, path) {
        let i = choose|i: int|
            0 <= i < x.calls.len() && in_file((#[trigger] x.calls[i]).location, path);
        if i < a.calls.len() {
            assert(x.calls[i] == a.calls[i]);
        } else {
            assert(x.calls[i] == b.calls[i - a.calls.len()]);
        }
    } else if exists|i: int|
        0 <= i < x.waiters.len() && in_file((#[trigger] x.waiters[i]).location, path) {
        let i = choose|i: int|
            0 <= i < x.waiters.len() && in_file((#[trigger] x.waiters[i]).location, path);
        if i < a.waiters.len() {
            assert(x.waiters[i] == a.waiters[i]);
        } else {
            assert(x.waiters[i] == b.waiters[i - a.waiters.len()]);
        }
    } else {
        let i = choose|i: int|
            0 <= i < x.paginators.len() && in_file((#[trigger] x.paginators[i]).location, path);
        if i < a.paginators.len() {
            assert(x.paginators[i] == a.paginators[i]);
        } else {
            assert(x.paginators[i] == b.paginators[i - a.paginators.len()]);
        }
    }
}

proof fn lemma_nothing_lies(path: Seq<char>)
    ensures
        !is_file_of(nothing_found(), path),
{
}

proof fn lemma_found_at_lies(
    es: Seq<SdkExtractor>,
    t: Seq<NodeView>,
    m: MatchView,
    path: Seq<char>,
    tables: ImportTablesView,
)
    ensures
        only_in(found_at(es, t, m, path, tables), path),
    decreases es.len(),
{
    if es.len() > 0 {
        lemma_found_at_lies(es.subrange(1, es.len() as int), t, m, path, tables);
        let x = found_by(es[0], t, m, path, tables);
        assert(forall|i: int|
            0 <= i < x.imports.len() ==> (#[trigger] x.imports[i]).location.file_path == path);
        assert(forall|i: int|
            0 <= i < x.utility_imports.len() ==> (
            #[trigger] x.utility_imports[i]).location.file_path == path);
        assert(forall|i: int|
            0 <= i < x.calls.len() ==> (#[trigger] x.calls[i]).location.file_path == path);
        assert(forall|i: int|
            0 <= i < x.waiters.len() ==> (#[trigger] x.waiters[i]).location.file_path == path);
        assert(forall|i: int|
            0 <= i < x.paginators.len() ==> (#[trigger] x.paginators[i]).location.file_path
                == path);
        assert(only_in(x, path));
    } else {
        assert forall|p: Seq<char>| #[trigger] is_file_of(nothing_found(), p) implies false by {
            lemma_nothing_lies(p);
        }
    }
}

proof fn lemma_found_in_lies(
    es: Seq<SdkExtractor>,
    t: Seq<NodeView>,
    ms: Seq<MatchView>,
    path: Seq<char>,
    tables: ImportTablesView,
)
    ensures
        only_in(found_in(es, t, ms, path, tables), path),
    decreases ms.len(),
{
    let x = found_in(es, t, ms, path, tables);
    assert forall|p: Seq<char>| #[trigger] is_file_of(x, p) implies path_components(p)
        == path_components(path) by {
        if ms.len() == 0 {
            lemma_nothing_lies(p);
        } else {
            lemma_found_in_lies(es, t, ms.drop_last(), path, tables);
            lemma_found_at_lies(es, t, ms.last(), path, tables);
            lemma_file_of_both(
                found_in(es, t, ms.drop_last(), path, tables),
                found_at(es, t, ms.last(), path, tables),
                p,
            );
        }
    }
}

/// A file by its path, its text and its language.
pub open spec fn file_view(f: SourceFile) -> (Seq<char>, Seq<char>, Language) {
    (f.path@, f.content@, f.language)
}

pub open spec fn file_views(fs: Seq<SourceFile>) -> Seq<(Seq<char>, Seq<char>, Language)> {
    fs.map_values(|f: SourceFile| file_view(f))
}

/// Files of one path are one file: they have the same text, and the path is written in the same
/// way.
pub open spec fn paths_tell_files(fs: Seq<SourceFile>) -> bool {
    forall|i: int, j: int|
        0 <= i < j < fs.len() && path_components((#[trigger] fs[i]).path@) == path_components(
            (#[trigger] fs[j]).path@,
        ) ==> fs[i].path@ == fs[j].path@ && fs[i].content@ == fs[j].content@
}

/// Files of one path have the same text, however the path is written.
pub open spec fn paths_tell_texts(fs: Seq<SourceFile>) -> bool {
    forall|i: int, j: int|
        0 <= i < j < fs.len() && path_components((#[trigger] fs[i]).path@) == path_components(
            (#[trigger] fs[j]).path@,
        ) ==> fs[i].content@ == fs[j].content@
}

/// What was found in files lies in these files.
proof fn lemma_found_lies(
    es: Seq<SdkExtractor>,
    fs: Seq<SourceFile>,
    tables: ImportTablesView,
    path: Seq<char>,
) -> (k: int)
    requires
        found_in_files(es, fs, tables) matches Ok(x) && is_file_of(x, path),
    ensures
        0 <= k < fs.len(),
        path_components(fs[k].path@) == path_components(path),
    decreases fs.len(),
{
    if fs.len() == 0 {
        lemma_nothing_lies(path);
        0
    } else {
        let a = found_in_files(es, fs.drop_last(), tables)->Ok_0;
        let b = found_in_file(es, fs.last(), tables)->Ok_0;
        lemma_file_of_both(a, b, path);
        if is_file_of(a, path) {
            let k = lemma_found_lies(es, fs.drop_last(), tables, path);
            assert(fs.drop_last()[k] == fs[k]);
            k
        } else {
            lemma_found_in_file_lies(es, fs.last(), tables);
            fs.len() - 1
        }
    }
}

proof fn lemma_found_in_file_lies(es: Seq<SdkExtractor>, f: SourceFile, tables: ImportTablesView)
    requires
        found_in_file(es, f, tables) is Ok,
    ensures
        only_in(found_in_file(es, f, tables)->Ok_0, f.path@),
{
    let scan = java_scan(rule_of(es), all_labels(), f.content@)->Ok_0;
    lemma_found_in_lies(es, scan.nodes, scan.matches, f.path@, tables);
}

proof fn lemma_all_found(es: Seq<SdkExtractor>, fs: Seq<SourceFile>, tables: ImportTablesView)
    ensures
        found_in_files(es, fs, tables) is Ok <==> (forall|k: int|
            0 <= k < fs.len() ==> found_in_file(es, #[trigger] fs[k], tables) is Ok),
    decreases fs.len(),
{
    if fs.len() > 0 {
        let t = fs.drop_last();
        lemma_all_found(es, t, tables);
        if found_in_files(es, fs, tables) is Ok {
            assert forall|k: int| 0 <= k < fs.len() implies found_in_file(
                es,
                #[trigger] fs[k],
                tables,
            ) is Ok by {
                if k < t.len() {
                    assert(t[k] == fs[k]);
                }
            }
        }
        if forall|k: int|
            0 <= k < fs.len() ==> found_in_file(es, #[trigger] fs[k], tables) is Ok {
            assert forall|k: int| 0 <= k < t.len() implies found_in_file(
                es,
                #[trigger] t[k],
                tables,
            ) is Ok by {
                assert(t[k] == fs[k]);
            }
            assert(found_in_file(es, fs[fs.len() - 1], tables) is Ok);
        }
    }
}

proof fn lemma_fewer_files(fs: Seq<SourceFile>)
    requires
        fs.len() > 0,
        paths_tell_files(fs),
    ensures
        paths_tell_files(fs.drop_last()),
{
    let t = fs.drop_last();
    assert forall|i: int, j: int|
        0 <= i < j < t.len() && path_components((#[trigger] t[i]).path@) == path_components(
            (#[trigger] t[j]).path@,
        ) implies t[i].path@ == t[j].path@ && t[i].content@ == t[j].content@ by {
        assert(t[i] == fs[i] && t[j] == fs[j]);
    }
}

proof fn lemma_fewer_texts(fs: Seq<SourceFile>)
    requires
        fs.len() > 0,
        paths_tell_texts(fs),
    ensures
        paths_tell_texts(fs.drop_last()),
{
    let t = fs.drop_last();
    assert forall|i: int, j: int|
        0 <= i < j < t.len() && path_components((#[trigger] t[i]).path@) == path_components(
            (#[trigger] t[j]).path@,
        ) implies t[i].content@ == t[j].content@ by {
        assert(t[i] == fs[i] && t[j] == fs[j]);
    }
}

/// The imports are the same but for the way in which the path of their file is written.
spec fn same_but_spelling(x: ExtractionView, y: ExtractionView) -> bool {
    &&& x.imports.len() == y.imports.len()
    &&& forall|i: int|
        0 <= i < x.imports.len() ==> (#[trigger] x.imports[i]).expr == y.imports[i].expr
            && x.imports[i].service == y.imports[i].service && in_file(
            x.imports[i].location,
            y.imports[i].location.file_path,
        )
    &&& x.utility_imports.len() == y.utility_imports.len()
    &&& forall|i: int|
        0 <= i < x.utility_imports.len() ==> (#[trigger] x.utility_imports[i]).class_name
            == y.utility_imports[i].class_name && x.utility_imports[i].utility_name
            == y.utility_imports[i].utility_name && in_file(
            x.utility_imports[i].location,
            y.utility_imports[i].location.file_path,
        )
}

proof fn lemma_spelling_of_both(
    a: ExtractionView,
    b: ExtractionView,
    c: ExtractionView,
    d: ExtractionView,
)
    requires
        same_but_spelling(a, c),
        same_but_spelling(b, d),
    ensures
        same_but_spelling(both_found(a, b), both_found(c, d)),
{
    let x = both_found(a, b);
    let y = both_found(c, d);
    assert forall|i: int| 0 <= i < x.imports.len() implies (#[trigger] x.imports[i]).expr
        == y.imports[i].expr && x.imports[i].service == y.imports[i].service && in_file(
        x.imports[i].location,
        y.imports[i].location.file_path,
    ) by {
        if i < a.imports.len() {
            assert(x.imports[i] == a.imports[i] && y.imports[i] == c.imports[i]);
        } else {
            let j = i - a.imports.len();
            assert(x.imports[i] == b.imports[j] && y.imports[i] == d.imports[j]);
        }
    }
    assert forall|i: int| 0 <= i < x.utility_imports.len() implies (
    #[trigger] x.utility_imports[i]).class_name == y.utility_imports[i].class_name
        && x.utility_imports[i].utility_name == y.utility_imports[i].utility_name && in_file(
        x.utility_imports[i].location,
        y.utility_imports[i].location.file_path,
    ) by {
        if i < a.utility_imports.len() {
            assert(x.utility_imports[i] == a.utility_imports[i]);
            assert(y.utility_imports[i] == c.utility_imports[i]);
        } else {
            let j = i - a.utility_imports.len();
            assert(x.utility_imports[i] == b.utility_imports[j]);
            assert(y.utility_imports[i] == d.utility_imports[j]);
        }
    }
}

proof fn lemma_spelling_at(
    es: Seq<SdkExtractor>,
    t: Seq<NodeView>,
    m: MatchView,
    p: Seq<char>,
    q: Seq<char>,
    tables: ImportTablesView,
)
    requires
        path_components(p) == path_components(q),
    ensures
        same_but_spelling(found_at(es, t, m, p, tables), found_at(es, t, m, q, tables)),
    decreases es.len(),
{
    if es.len() > 0 {
        lemma_spelling_at(es.subrange(1, es.len() as int), t, m, p, q, tables);
        assert(same_but_spelling(
            found_by(es[0], t, m, p, tables),
            found_by(es[0], t, m, q, tables),
        ));
    }
}

proof fn lemma_spelling_in(
    es: Seq<SdkExtractor>,
    t: Seq<NodeView>,
    ms: Seq<MatchView>,
    p: Seq<char>,
    q: Seq<char>,
    tables: ImportTablesView,
)
    requires
        path_components(p) == path_components(q),
    ensures
        same_but_spelling(found_in(es, t, ms, p, tables), found_in(es, t, ms, q, tables)),
    decreases ms.len(),
{
    if ms.len() > 0 {
        lemma_spelling_in(es, t, ms.drop_last(), p, q, tables);
        lemma_spelling_at(es, t, ms.last(), p, q, tables);
        lemma_spelling_of_both(
            found_in(es, t, ms.drop_last(), p, tables),
            found_at(es, t, ms.last(), p, tables),
            found_in(es, t, ms.drop_last(), q, tables),
            found_at(es, t, ms.last(), q, tables),
        );
    }
}

proof fn lemma_spelling_services(x: Seq<ImportView>, y: Seq<ImportView>, p: Seq<char>)
    requires
        x.len() == y.len(),
        forall|i: int|
            0 <= i < x.len() ==> (#[trigger] x[i]).service == y[i].service && in_file(
                x[i].location,
                y[i].location.file_path,
            ),
    ensures
        services_imported(x, p) == services_imported(y, p),
    decreases x.len(),
{
    if x.len() > 0 {
        let a = x.drop_last();
        let b = y.drop_last();
        assert forall|i: int| 0 <= i < a.len() implies (#[trigger] a[i]).service == b[i].service
            && in_file(a[i].location, b[i].location.file_path) by {
            assert(a[i] == x[i] && b[i] == y[i]);
        }
        lemma_spelling_services(a, b, p);
        assert(x[x.len() - 1].service == y[y.len() - 1].service);
    }
}

proof fn lemma_spelling_class(
    x: Seq<ImportView>,
    y: Seq<ImportView>,
    p: Seq<char>,
    name: Seq<char>,
)
    requires
        x.len() == y.len(),
        forall|i: int|
            0 <= i < x.len() ==> (#[trigger] x[i]).expr == y[i].expr && x[i].service
                == y[i].service && in_file(x[i].location, y[i].location.file_path),
    ensures
        service_of_class(x, p, name) == service_of_class(y, p, name),
    decreases x.len(),
{
    if x.len() > 0 {
        let a = x.subrange(1, x.len() as int);
        let b = y.subrange(1, y.len() as int);
        assert forall|i: int| 0 <= i < a.len() implies (#[trigger] a[i]).expr == b[i].expr
            && a[i].service == b[i].service && in_file(
            a[i].location,
            b[i].location.file_path,
        ) by {
            assert(a[i] == x[i + 1] && b[i] == y[i + 1]);
        }
        lemma_spelling_class(a, b, p, name);
        assert(x[0].expr == y[0].expr);
    }
}

/// What two files of one path and one text import says the same.
proof fn lemma_spelling_does_not_matter(
    es: Seq<SdkExtractor>,
    f: SourceFile,
    g: SourceFile,
    tables: ImportTablesView,
    p: Seq<char>,
)
    requires
        path_components(f.path@) == path_components(g.path@),
        f.content@ == g.content@,
        found_in_file(es, f, tables) is Ok,
        found_in_file(es, g, tables) is Ok,
    ensures
        same_for(
            found_in_file(es, f, tables)->Ok_0.imports,
            found_in_file(es, g, tables)->Ok_0.imports,
            p,
        ),
        same_classes(
            found_in_file(es, f, tables)->Ok_0.utility_imports,
            found_in_file(es, g, tables)->Ok_0.utility_imports,
            p,
        ),
{
    let scan = java_scan(rule_of(es), all_labels(), f.content@)->Ok_0;
    lemma_spelling_in(es, scan.nodes, scan.matches, f.path@, g.path@, tables);
    let x = found_in_file(es, f, tables)->Ok_0;
    let y = found_in_file(es, g, tables)->Ok_0;
    assert(same_but_spelling(x, y));
    lemma_spelling_services(x.imports, y.imports, p);
    assert forall|name: Seq<char>| #[trigger]
        service_of_class(x.imports, p, name) == service_of_class(y.imports, p, name) by {
        lemma_spelling_class(x.imports, y.imports, p, name);
    }
    let u = x.utility_imports;
    let v = y.utility_imports;
    assert forall|service: Seq<char>, feature: FeatureView| #[trigger]
        class_is_imported(u, p, service, feature) == class_is_imported(v, p, service, feature) by {
        let brings = |i: UtilityImportView|
            in_file(i.location, p) && (i.class_name == feature.receiver_class || (i.class_name
                == "*"@ && i.utility_name == service));
        if class_is_imported(u, p, service, feature) {
            let i = choose|i: int|
                0 <= i < u.len() && in_file((#[trigger] u[i]).location, p) && brings(u[i]);
            assert(in_file(v[i].location, p) && brings(v[i]));
        }
        if class_is_imported(v, p, service, feature) {
            let i = choose|i: int|
                0 <= i < v.len() && in_file((#[trigger] v[i]).location, p) && brings(v[i]);
            assert(u[i].class_name == v[i].class_name);
            assert(in_file(u[i].location, p) && brings(u[i]));
        }
    }
}

/// What all the files import says the same about one of them as what that file imports.
proof fn lemma_same_as_file(
    es: Seq<SdkExtractor>,
    fs: Seq<SourceFile>,
    tables: ImportTablesView,
    k: int,
    p: Seq<char>,
)
    requires
        paths_tell_texts(fs),
        found_in_files(es, fs, tables) is Ok,
        0 <= k < fs.len(),
        path_components(fs[k].path@) == path_components(p),
    ensures
        found_in_file(es, fs[k], tables) is Ok,
        same_for(
            found_in_files(es, fs, tables)->Ok_0.imports,
            found_in_file(es, fs[k], tables)->Ok_0.imports,
            p,
        ),
        same_classes(
            found_in_files(es, fs, tables)->Ok_0.utility_imports,
            found_in_file(es, fs[k], tables)->Ok_0.utility_imports,
            p,
        ),
    decreases fs.len(),
{
    lemma_all_found(es, fs, tables);
    let t = fs.drop_last();
    let n = fs.len() - 1;
    let a = found_in_files(es, t, tables)->Ok_0;
    let b = found_in_file(es, fs[n], tables)->Ok_0;
    lemma_fewer_texts(fs);
    lemma_imports_of_others(a.imports, b.imports, p);
    lemma_classes_of_others(a.utility_imports, b.utility_imports, p);
    if path_components(fs[n].path@) == path_components(p) {
        let c = found_in_file(es, fs[k], tables)->Ok_0;
        assert(fs[k].content@ == fs[n].content@);
        lemma_spelling_does_not_matter(es, fs[n], fs[k], tables, p);
        if is_file_of(a, p) {
            let i = lemma_found_lies(es, t, tables, p);
            let d = found_in_file(es, fs[i], tables)->Ok_0;
            assert(t[i] == fs[i]);
            assert(fs[i].content@ == fs[n].content@);
            lemma_same_as_file(es, t, tables, i, p);
            lemma_spelling_does_not_matter(es, fs[i], fs[n], tables, p);
            lemma_same_trans(a.imports, d.imports, b.imports, p);
            lemma_classes_trans(a.utility_imports, d.utility_imports, b.utility_imports, p);
        } else {
            lemma_others_have_none(a, p);
        }
        lemma_same_trans(a.imports + b.imports, b.imports, c.imports, p);
        lemma_classes_trans(
            a.utility_imports + b.utility_imports,
            b.utility_imports,
            c.utility_imports,
            p,
        );
    } else {
        assert(t[k] == fs[k]);
        lemma_same_as_file(es, t, tables, k, p);
        lemma_found_in_file_lies(es, fs[n], tables);
        lemma_others_have_none(b, p);
        let c = found_in_file(es, fs[k], tables)->Ok_0;
        lemma_same_trans(a.imports + b.imports, a.imports, c.imports, p);
        lemma_classes_trans(
            a.utility_imports + b.utility_imports,
            a.utility_imports,
            c.utility_imports,
            p,
        );
    }
}

proof fn lemma_classes_trans(
    x: Seq<UtilityImportView>,
    y: Seq<UtilityImportView>,
    z: Seq<UtilityImportView>,
    p: Seq<char>,
)
    requires
        same_classes(x, y, p),
        same_classes(y, z, p),
    ensures
        same_classes(x, z, p),
{
    assert forall|service: Seq<char>, f: FeatureView| #[trigger]
        class_is_imported(x, p, service, f) == class_is_imported(z, p, service, f) by {
        assert(class_is_imported(y, p, service, f) == class_is_imported(z, p, service, f));
    }
}

proof fn lemma_same_trans(
    x: Seq<ImportView>,
    y: Seq<ImportView>,
    z: Seq<ImportView>,
    p: Seq<char>,
)
    requires
        same_for(x, y, p),
        same_for(y, z, p),
    ensures
        same_for(x, z, p),
{
    assert forall|s: Seq<char>|
        #![trigger services_imported(x, p).contains(s)]
        #![trigger services_imported(z, p).contains(s)]
        services_imported(x, p).contains(s) == services_imported(z, p).contains(s) by {
        assert(services_imported(y, p).contains(s) == services_imported(z, p).contains(s));
    }
    assert forall|name: Seq<char>| #[trigger]
        service_of_class(x, p, name) == service_of_class(z, p, name) by {
        assert(service_of_class(y, p, name) == service_of_class(z, p, name));
    }
}

/// Files of which those of one path have one text agree with one more such file.
proof fn lemma_files_agree(es: Seq<SdkExtractor>, fs: Seq<SourceFile>, tables: ImportTablesView)
    requires
        fs.len() > 0,
        paths_tell_texts(fs),
        found_in_files(es, fs, tables) is Ok,
    ensures
        agree(
            found_in_files(es, fs.drop_last(), tables)->Ok_0,
            found_in_file(es, fs.last(), tables)->Ok_0,
        ),
{
    lemma_all_found(es, fs, tables);
    let t = fs.drop_last();
    let n = fs.len() - 1;
    let a = found_in_files(es, t, tables)->Ok_0;
    let b = found_in_file(es, fs[n], tables)->Ok_0;
    lemma_fewer_texts(fs);
    assert forall|p: Seq<char>| #[trigger] is_file_of(a, p) && #[trigger] is_file_of(
        b,
        p,
    ) implies same_for(a.imports, b.imports, p) && same_classes(
        a.utility_imports,
        b.utility_imports,
        p,
    ) by {
        let i = lemma_found_lies(es, t, tables, p);
        lemma_found_in_file_lies(es, fs[n], tables);
        lemma_same_as_file(es, t, tables, i, p);
        assert(t[i] == fs[i]);
        let d = found_in_file(es, fs[i], tables)->Ok_0;
        assert(fs[i].content@ == fs[n].content@);
        lemma_spelling_does_not_matter(es, fs[i], fs[n], tables, p);
        lemma_same_trans(a.imports, d.imports, b.imports, p);
        lemma_classes_trans(a.utility_imports, d.utility_imports, b.utility_imports, p);
    }
}

/// As many copies of a list, one behind the other.
spec fn copies<A>(s: Seq<A>, n: nat) -> Seq<A>
    decreases n,
{
    if n == 0 {
        Seq::empty()
    } else {
        copies(s, (n - 1) as nat) + s
    }
}

/// Whether the calls of a rank in `x` are those in `y`, `n` times.
spec fn has_copies(
    x: ExtractionView,
    y: ExtractionView,
    index: IndexView,
    model: ModelView,
    r: SdkCallView,
    n: nat,
) -> bool {
    let f = rank_of(r);
    &&& matched_calls(x.calls, x.imports, index).filter(f) == copies(
        matched_calls(y.calls, y.imports, index).filter(f),
        n,
    )
    &&& matched_waiters(x.waiters, x.imports, index).filter(f) == copies(
        matched_waiters(y.waiters, y.imports, index).filter(f),
        n,
    )
    &&& matched_paginators(x.paginators, x.imports, index).filter(f) == copies(
        matched_paginators(y.paginators, y.imports, index).filter(f),
        n,
    )
    &&& utility_calls(x.calls, x.utility_imports, model).filter(f) == copies(
        utility_calls(y.calls, y.utility_imports, model).filter(f),
        n,
    )
}

/// One more extraction adds one more copy, or nothing if the rank is not one of its files.
proof fn lemma_one_more(
    a: ExtractionView,
    b: ExtractionView,
    y: ExtractionView,
    index: IndexView,
    model: ModelView,
    r: SdkCallView,
    n: nat,
)
    requires
        agree(a, b),
        has_copies(a, y, index, model, r, n),
    ensures
        b == y ==> has_copies(both_found(a, b), y, index, model, r, n + 1),
        !lies_in(r, b) ==> has_copies(both_found(a, b), y, index, model, r, n),
{
    let f = rank_of(r);
    let c = matched_calls(a.calls, a.imports, index);
    let d = matched_calls(b.calls, b.imports, index);
    let v = matched_waiters(a.waiters, a.imports, index);
    let w = matched_waiters(b.waiters, b.imports, index);
    let p = matched_paginators(a.paginators, a.imports, index);
    let q = matched_paginators(b.paginators, b.imports, index);
    let t = utility_calls(a.calls, a.utility_imports, model);
    let u = utility_calls(b.calls, b.utility_imports, model);
    lemma_merged_calls(a, b, index);
    lemma_merged_waiters(a, b, index);
    lemma_merged_paginators(a, b, index);
    lemma_merged_utilities(a, b, model);
    if !lies_in(r, b) {
        lemma_no_such_rank(b, index, model, r);
        lemma_filter_of_four(d, w, q, u, f);
    }
    lemma_copy_added(
        c,
        d,
        matched_calls(y.calls, y.imports, index).filter(f),
        f,
        n,
    );
    lemma_copy_added(
        v,
        w,
        matched_waiters(y.waiters, y.imports, index).filter(f),
        f,
        n,
    );
    lemma_copy_added(
        p,
        q,
        matched_paginators(y.paginators, y.imports, index).filter(f),
        f,
        n,
    );
    lemma_copy_added(
        t,
        u,
        utility_calls(y.calls, y.utility_imports, model).filter(f),
        f,
        n,
    );
}

proof fn lemma_copy_added(
    c: Seq<SdkCallView>,
    d: Seq<SdkCallView>,
    one: Seq<SdkCallView>,
    f: spec_fn(SdkCallView) -> bool,
    n: nat,
)
    requires
        c.filter(f) == copies(one, n),
    ensures
        d.filter(f) == one ==> (c + d).filter(f) == copies(one, n + 1),
        d.filter(f).len() == 0 ==> (c + d).filter(f) == copies(one, n),
{
    Seq::filter_distributes_over_add(c, d, f);
    if d.filter(f).len() == 0 {
        assert((c + d).filter(f) =~= c.filter(f));
    }
}

proof fn lemma_nothing_matched(
    y: ExtractionView,
    index: IndexView,
    model: ModelView,
    r: SdkCallView,
)
    ensures
        has_copies(nothing_found(), y, index, model, r, 0),
{
    reveal(Seq::filter);
    let x = nothing_found();
    let f = rank_of(r);
    assert(matched_calls(x.calls, x.imports, index).filter(f) =~= Seq::<SdkCallView>::empty());
    assert(matched_waiters(x.waiters, x.imports, index).filter(f) =~= Seq::<SdkCallView>::empty());
    assert(matched_paginators(x.paginators, x.imports, index).filter(f) =~= Seq::<
        SdkCallView,
    >::empty());
    assert(utility_calls(x.calls, x.utility_imports, model).filter(f) =~= Seq::<
        SdkCallView,
    >::empty());
}

/// The calls of a rank are those of the file in which they lie, once for each time that the file
/// is listed.
proof fn lemma_rank_of_file(
    es: Seq<SdkExtractor>,
    fs: Seq<SourceFile>,
    tables: ImportTablesView,
    index: IndexView,
    model: ModelView,
    r: SdkCallView,
    g: SourceFile,
)
    requires
        paths_tell_files(fs),
        found_in_files(es, fs, tables) is Ok,
        found_in_file(es, g, tables) is Ok,
        call_location(r) matches Some(l) && in_file(l, g.path@),
        forall|i: int|
            0 <= i < fs.len() && path_components((#[trigger] fs[i]).path@) == path_components(
                g.path@,
            ) ==> file_view(fs[i]) == file_view(g),
    ensures
        has_copies(
            found_in_files(es, fs, tables)->Ok_0,
            found_in_file(es, g, tables)->Ok_0,
            index,
            model,
            r,
            file_views(fs).to_multiset().count(file_view(g)),
        ),
    decreases fs.len(),
{
    broadcast use vstd::seq_lib::group_to_multiset_ensures;

    let y = found_in_file(es, g, tables)->Ok_0;
    let v = file_views(fs);
    if fs.len() == 0 {
        assert(v.len() == 0);
        assert(v.to_multiset().len() == 0);
        assert(v.to_multiset().count(file_view(g)) == 0);
        lemma_nothing_matched(y, index, model, r);
    } else {
        let t = fs.drop_last();
        let n = fs.len() - 1;
        let a = found_in_files(es, t, tables)->Ok_0;
        let b = found_in_file(es, fs[n], tables)->Ok_0;
        let m = file_views(t).to_multiset().count(file_view(g));
        assert(v =~= file_views(t).push(file_view(fs[n])));
        assert(v.to_multiset() == file_views(t).to_multiset().insert(file_view(fs[n])));
        lemma_files_agree(es, fs, tables);
        lemma_fewer_files(fs);
        assert forall|i: int|
            0 <= i < t.len() && path_components((#[trigger] t[i]).path@) == path_components(
                g.path@,
            ) implies file_view(t[i]) == file_view(g) by {
            assert(t[i] == fs[i]);
        }
        lemma_rank_of_file(es, t, tables, index, model, r, g);
        lemma_one_more(a, b, y, index, model, r, m);
        if path_components(fs[n].path@) == path_components(g.path@) {
            assert(b == y);
        } else {
            lemma_found_in_file_lies(es, fs[n], tables);
            assert(!lies_in(r, b));
        }
    }
}

/// The same files in another order have the same calls, listed in the same order. A file may be
/// listed several times, as long as files of one path are one file.
pub proof fn order_of_files_does_not_matter(
    es: Seq<SdkExtractor>,
    fs: Seq<SourceFile>,
    gs: Seq<SourceFile>,
    tables: ImportTablesView,
    index: ServiceModelIndex,
    model: JavaUtilitiesModel,
)
    requires
        paths_tell_files(fs),
        file_views(fs).to_multiset() == file_views(gs).to_multiset(),
    ensures
        match (found_in_files(es, fs, tables), found_in_files(es, gs, tables)) {
            (Ok(x), Ok(y)) => sorted_matches(x, index, model) == sorted_matches(y, index, model),
            (Err(_), Err(_)) => true,
            _ => false,
        },
{
    lemma_both_found(es, fs, gs, tables);
    if found_in_files(es, fs, tables) is Ok && found_in_files(es, gs, tables) is Ok {
        let x = found_in_files(es, fs, tables)->Ok_0;
        let y = found_in_files(es, gs, tables)->Ok_0;
        let a = all_matched(x, index@, model@);
        let b = all_matched(y, index@, model@);
        let lt = order_of::<SdkMethodCall>();
        assert forall|i: int, j: int|
            0 <= i < j < gs.len() && path_components((#[trigger] gs[i]).path@) == path_components(
                (#[trigger] gs[j]).path@,
            ) implies gs[i].path@ == gs[j].path@ && gs[i].content@ == gs[j].content@ by {
            let k = lemma_listed(gs, fs, i);
            let m = lemma_listed(gs, fs, j);
            assert(file_view(fs[k]) == file_view(gs[i]) && file_view(fs[m]) == file_view(gs[j]));
            if k < m {
                assert(fs[k].content@ == fs[m].content@);
            } else if m < k {
                assert(fs[m].content@ == fs[k].content@);
            }
        }
        assert forall|r: SdkCallView| #[trigger] a.filter(ranks_with(r, lt)) == b.filter(
            ranks_with(r, lt),
        ) by {
            if lies_in(r, x) {
                let k = lemma_found_lies(es, fs, tables, call_location(r)->0.file_path);
                lemma_same_rank_in_both(es, fs, gs, tables, index@, model@, r, k);
            } else if lies_in(r, y) {
                let m = lemma_found_lies(es, gs, tables, call_location(r)->0.file_path);
                let k = lemma_listed(gs, fs, m);
                lemma_same_rank_in_both(es, fs, gs, tables, index@, model@, r, k);
            } else {
                lemma_no_such_rank(x, index@, model@, r);
                lemma_no_such_rank(y, index@, model@, r);
            }
        }
        calls_are_ordered();
        sorting_looks_at_ranks(a, b, lt);
    }
}

/// Something is found in all files of a list if that is so of the same files in another order.
proof fn lemma_both_found(
    es: Seq<SdkExtractor>,
    fs: Seq<SourceFile>,
    gs: Seq<SourceFile>,
    tables: ImportTablesView,
)
    requires
        file_views(fs).to_multiset() == file_views(gs).to_multiset(),
    ensures
        found_in_files(es, fs, tables) is Ok == found_in_files(es, gs, tables) is Ok,
{
    lemma_all_found(es, fs, tables);
    lemma_all_found(es, gs, tables);
    if found_in_files(es, fs, tables) is Ok {
        assert forall|k: int| 0 <= k < gs.len() implies found_in_file(
            es,
            #[trigger] gs[k],
            tables,
        ) is Ok by {
            let i = lemma_listed(gs, fs, k);
            assert(found_in_file(es, fs[i], tables) is Ok);
        }
    }
    if found_in_files(es, gs, tables) is Ok {
        assert forall|k: int| 0 <= k < fs.len() implies found_in_file(
            es,
            #[trigger] fs[k],
            tables,
        ) is Ok by {
            let i = lemma_listed(fs, gs, k);
            assert(found_in_file(es, gs[i], tables) is Ok);
        }
    }
}

/// The calls of the files, each matched on its own.
spec fn calls_of_files(
    es: Seq<SdkExtractor>,
    fs: Seq<SourceFile>,
    tables: ImportTablesView,
    index: IndexView,
    model: ModelView,
) -> Multiset<SdkCallView>
    decreases fs.len(),
{
    if fs.len() == 0 {
        Multiset::empty()
    } else {
        calls_of_files(es, fs.drop_last(), tables, index, model).add(
            calls_of_file(es, fs.last(), tables, index, model),
        )
    }
}

spec fn calls_of_file(
    es: Seq<SdkExtractor>,
    f: SourceFile,
    tables: ImportTablesView,
    index: IndexView,
    model: ModelView,
) -> Multiset<SdkCallView> {
    all_matched(found_in_file(es, f, tables)->Ok_0, index, model).to_multiset()
}

proof fn lemma_calls_of_files(
    es: Seq<SdkExtractor>,
    fs: Seq<SourceFile>,
    tables: ImportTablesView,
    index: IndexView,
    model: ModelView,
)
    requires
        paths_tell_texts(fs),
        found_in_files(es, fs, tables) is Ok,
    ensures
        all_matched(found_in_files(es, fs, tables)->Ok_0, index, model).to_multiset()
            == calls_of_files(es, fs, tables, index, model),
    decreases fs.len(),
{
    if fs.len() == 0 {
        broadcast use vstd::seq_lib::group_to_multiset_ensures;

        let s = all_matched(nothing_found(), index, model);
        assert(s.len() == 0);
        assert(s.to_multiset().len() == 0);
        assert(s.to_multiset() =~= Multiset::empty());
    } else {
        lemma_fewer_texts(fs);
        lemma_files_agree(es, fs, tables);
        lemma_calls_of_files(es, fs.drop_last(), tables, index, model);
        files_are_matched_on_their_own(
            found_in_files(es, fs.drop_last(), tables)->Ok_0,
            found_in_file(es, fs.last(), tables)->Ok_0,
            index,
            model,
        );
    }
}

/// The calls of the files are those of one of them and those of the others.
proof fn lemma_one_file_removed(
    es: Seq<SdkExtractor>,
    fs: Seq<SourceFile>,
    tables: ImportTablesView,
    index: IndexView,
    model: ModelView,
    i: int,
)
    requires
        0 <= i < fs.len(),
    ensures
        calls_of_files(es, fs, tables, index, model) == calls_of_files(
            es,
            fs.remove(i),
            tables,
            index,
            model,
        ).add(calls_of_file(es, fs[i], tables, index, model)),
    decreases fs.len(),
{
    let t = fs.drop_last();
    if i == fs.len() - 1 {
        assert(fs.remove(i) =~= t);
    } else {
        lemma_one_file_removed(es, t, tables, index, model, i);
        assert(fs.remove(i).drop_last() =~= t.remove(i));
        assert(fs.remove(i).last() == fs.last());
        assert(calls_of_files(es, fs, tables, index, model) =~= calls_of_files(
            es,
            fs.remove(i),
            tables,
            index,
            model,
        ).add(calls_of_file(es, fs[i], tables, index, model)));
    }
}

proof fn lemma_calls_in_any_order(
    es: Seq<SdkExtractor>,
    fs: Seq<SourceFile>,
    gs: Seq<SourceFile>,
    tables: ImportTablesView,
    index: IndexView,
    model: ModelView,
)
    requires
        file_views(fs).to_multiset() == file_views(gs).to_multiset(),
    ensures
        calls_of_files(es, fs, tables, index, model) == calls_of_files(
            es,
            gs,
            tables,
            index,
            model,
        ),
    decreases fs.len(),
{
    broadcast use vstd::seq_lib::group_to_multiset_ensures;

    assert(file_views(fs).to_multiset().len() == fs.len());
    assert(file_views(gs).to_multiset().len() == gs.len());
    if fs.len() > 0 {
        let n = fs.len() - 1;
        let i = lemma_listed(fs, gs, n);
        assert(fs.remove(n) =~= fs.drop_last());
        assert(file_views(fs.remove(n)) =~= file_views(fs).remove(n));
        assert(file_views(gs.remove(i)) =~= file_views(gs).remove(i));
        assert(file_views(fs)[n] == file_views(gs)[i]);
        lemma_calls_in_any_order(es, fs.remove(n), gs.remove(i), tables, index, model);
        lemma_one_file_removed(es, fs, tables, index, model, n);
        lemma_one_file_removed(es, gs, tables, index, model, i);
        assert(found_in_file(es, fs[n], tables) == found_in_file(es, gs[i], tables));
    }
}

/// The same files in another order have the same calls, as often as before. The path of a file may
/// be written in several ways, as long as files of one path have the same text.
pub proof fn order_of_files_keeps_the_calls(
    es: Seq<SdkExtractor>,
    fs: Seq<SourceFile>,
    gs: Seq<SourceFile>,
    tables: ImportTablesView,
    index: ServiceModelIndex,
    model: JavaUtilitiesModel,
)
    requires
        paths_tell_texts(fs),
        file_views(fs).to_multiset() == file_views(gs).to_multiset(),
    ensures
        match (found_in_files(es, fs, tables), found_in_files(es, gs, tables)) {
            (Ok(x), Ok(y)) => sorted_matches(x, index, model).to_multiset() == sorted_matches(
                y,
                index,
                model,
            ).to_multiset(),
            (Err(_), Err(_)) => true,
            _ => false,
        },
{
    lemma_both_found(es, fs, gs, tables);
    if found_in_files(es, fs, tables) is Ok {
        let x = found_in_files(es, fs, tables)->Ok_0;
        let y = found_in_files(es, gs, tables)->Ok_0;
        let lt = order_of::<SdkMethodCall>();
        assert forall|i: int, j: int|
            0 <= i < j < gs.len() && path_components((#[trigger] gs[i]).path@) == path_components(
                (#[trigger] gs[j]).path@,
            ) implies gs[i].content@ == gs[j].content@ by {
            let k = lemma_listed(gs, fs, i);
            let m = lemma_listed(gs, fs, j);
            assert(file_view(fs[k]) == file_view(gs[i]) && file_view(fs[m]) == file_view(gs[j]));
            if k < m {
                assert(fs[k].content@ == fs[m].content@);
            } else if m < k {
                assert(fs[m].content@ == fs[k].content@);
            }
        }
        lemma_calls_of_files(es, fs, tables, index@, model@);
        lemma_calls_of_files(es, gs, tables, index@, model@);
        lemma_calls_in_any_order(es, fs, gs, tables, index@, model@);
        sorting_keeps_the_items(all_matched(x, index@, model@), lt);
        sorting_keeps_the_items(all_matched(y, index@, model@), lt);
    }
}

/// Where the file at `k` stands in another list of the same files.
proof fn lemma_listed(fs: Seq<SourceFile>, gs: Seq<SourceFile>, k: int) -> (i: int)
    requires
        file_views(fs).to_multiset() == file_views(gs).to_multiset(),
        0 <= k < fs.len(),
    ensures
        0 <= i < gs.len(),
        file_view(gs[i]) == file_view(fs[k]),
{
    broadcast use vstd::seq_lib::group_to_multiset_ensures;

    let v = file_views(fs);
    let w = file_views(gs);
    assert(v.contains(v[k]));
    assert(v.to_multiset().count(v[k]) > 0);
    assert(w.contains(v[k]));
    choose|i: int| 0 <= i < w.len() && w[i] == v[k]
}

/// The calls of a rank that lies in the file at `k` are the same in both lists of files.
proof fn lemma_same_rank_in_both(
    es: Seq<SdkExtractor>,
    fs: Seq<SourceFile>,
    gs: Seq<SourceFile>,
    tables: ImportTablesView,
    index: IndexView,
    model: ModelView,
    r: SdkCallView,
    k: int,
)
    requires
        paths_tell_files(fs),
        paths_tell_files(gs),
        file_views(fs).to_multiset() == file_views(gs).to_multiset(),
        found_in_files(es, fs, tables) is Ok,
        found_in_files(es, gs, tables) is Ok,
        0 <= k < fs.len(),
        call_location(r) matches Some(l) && in_file(l, fs[k].path@),
    ensures
        all_matched(found_in_files(es, fs, tables)->Ok_0, index, model).filter(rank_of(r))
            == all_matched(found_in_files(es, gs, tables)->Ok_0, index, model).filter(rank_of(r)),
{
    lemma_all_found(es, fs, tables);
    lemma_all_found(es, gs, tables);
    let g = fs[k];
    let x = found_in_files(es, fs, tables)->Ok_0;
    let y = found_in_files(es, gs, tables)->Ok_0;
    let f = rank_of(r);
    assert forall|i: int|
        0 <= i < fs.len() && path_components((#[trigger] fs[i]).path@) == path_components(
            g.path@,
        ) implies file_view(fs[i]) == file_view(g) by {
        assert(found_in_file(es, fs[i], tables) is Ok && found_in_file(es, fs[k], tables) is Ok);
        if i < k {
            assert(fs[i].content@ == fs[k].content@);
        } else if k < i {
            assert(fs[k].content@ == fs[i].content@);
        }
    }
    assert forall|i: int|
        0 <= i < gs.len() && path_components((#[trigger] gs[i]).path@) == path_components(
            g.path@,
        ) implies file_view(gs[i]) == file_view(g) by {
        let j = lemma_listed(gs, fs, i);
        assert(file_view(fs[j]) == file_view(g));
    }
    assert(found_in_file(es, fs[k], tables) is Ok);
    lemma_rank_of_file(es, fs, tables, index, model, r, g);
    lemma_rank_of_file(es, gs, tables, index, model, r, g);
    lemma_filter_of_four(
        matched_calls(x.calls, x.imports, index),
        matched_waiters(x.waiters, x.imports, index),
        matched_paginators(x.paginators, x.imports, index),
        utility_calls(x.calls, x.utility_imports, model),
        f,
    );
    lemma_filter_of_four(
        matched_calls(y.calls, y.imports, index),
        matched_waiters(y.waiters, y.imports, index),
        matched_paginators(y.paginators, y.imports, index),
        utility_calls(y.calls, y.utility_imports, model),
        f,
    );
}

} // verus!
