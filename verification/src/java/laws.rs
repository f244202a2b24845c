//! What holds of the SDK calls that Java code makes.

use vstd::prelude::*;
use vstd::seq_lib::lemma_seq_concat_contains_all_elements;

use crate::casing::camel_case;
use crate::java::matcher::{
    all_matched, by_operation, matched_call, matched_calls, matched_paginator, matched_paginators,
    matched_waiter, matched_waiters, one_or_none, operation_of_method, waiter_suffixes,
    with_service, GroupView,
};
use crate::java::services::{
    is_class_of, is_one_of, is_text, kept, possible_services, ref_services, service_of_class,
    services_imported, some_suffix_gives, IndexView, RefView,
};
use crate::java::types::{
    both_found, receiver_type_of, CallView, DeclarationView, ExtractionView, ImportView,
    PaginatorView, WaiterView,
};
use crate::java::utilities::{utility_calls, ModelView};
use crate::paths::path_components;
use crate::sdk::{MetadataView, SdkCallView};
use crate::text::{split_on, without};
use crate::text_laws::{suffixes_stand_behind_the_rest, texts_without_suffix};

verus! {

/// A method that hands out bytes calls the operation that it is named after; any other method is
/// named as its operation.
pub proof fn methods_name_their_operation(m: Seq<char>)
    ensures
        operation_of_method(m + "AsBytes"@) == m,
        (forall|n: Seq<char>| m != #[trigger] (n + "AsBytes"@)) ==> operation_of_method(m) == m,
{
    suffixes_stand_behind_the_rest(m, "AsBytes"@);
    texts_without_suffix(m, "AsBytes"@);
}

/// A call is matched exactly if its operation is in the index and some service is possible for it,
/// whatever its arguments; the match has the operation, all possible services and the text, place,
/// arguments and receiver of the call.
pub proof fn calls_are_matched_by_operation(
    c: CallView,
    imports: Seq<ImportView>,
    index: IndexView,
)
    ensures
        matched_call(c, imports, index) is Some <==> index.methods.contains_key(
            operation_of_method(c.method),
        ) && possible_services(
            c.receiver_declaration,
            seq!["Client"@, "AsyncClient"@],
            ref_services(index.methods[operation_of_method(c.method)]),
            imports,
            c.location.file_path,
            index.service_ids,
        ).len() > 0,
        matched_call(c, imports, index) matches Some(m) ==> m == (SdkCallView {
            name: operation_of_method(c.method),
            possible_services: possible_services(
                c.receiver_declaration,
                seq!["Client"@, "AsyncClient"@],
                ref_services(index.methods[operation_of_method(c.method)]),
                imports,
                c.location.file_path,
                index.service_ids,
            ),
            metadata: Some(
                MetadataView {
                    expr: c.expr,
                    location: c.location,
                    parameters: c.parameters,
                    receiver: c.receiver,
                },
            ),
        }),
{
}

/// A paginator is matched exactly if its operation is in the index and some service is possible for
/// it, whatever its arguments; the match has the operation, all possible services and the text, place
/// and arguments of the paginator.
pub proof fn paginators_are_matched_by_operation(
    p: PaginatorView,
    imports: Seq<ImportView>,
    index: IndexView,
)
    ensures
        matched_paginator(p, imports, index) is Some <==> index.methods.contains_key(p.operation)
            && possible_services(
            p.receiver_declaration,
            seq!["Client"@, "AsyncClient"@],
            ref_services(index.methods[p.operation]),
            imports,
            p.location.file_path,
            index.service_ids,
        ).len() > 0,
        matched_paginator(p, imports, index) matches Some(m) ==> m == (SdkCallView {
            name: p.operation,
            possible_services: possible_services(
                p.receiver_declaration,
                seq!["Client"@, "AsyncClient"@],
                ref_services(index.methods[p.operation]),
                imports,
                p.location.file_path,
                index.service_ids,
            ),
            metadata: Some(
                MetadataView {
                    expr: p.expr,
                    location: p.location,
                    parameters: p.parameters,
                    receiver: None,
                },
            ),
        }),
{
}

/// A paginator and a plain call of the same operation on the same receiver, at the same place and
/// with the same arguments mean the same operation of the same services.
pub proof fn paginators_match_as_calls_do(
    p: PaginatorView,
    c: CallView,
    imports: Seq<ImportView>,
    index: IndexView,
)
    requires
        operation_of_method(c.method) == p.operation,
        c.receiver_declaration == p.receiver_declaration,
        c.location == p.location,
        c.parameters == p.parameters,
        c.expr == p.expr,
    ensures
        match (matched_paginator(p, imports, index), matched_call(c, imports, index)) {
            (Some(x), Some(y)) => x.name == y.name && x.possible_services == y.possible_services
                && x.metadata is Some && y.metadata is Some && x.metadata->0.parameters
                == y.metadata->0.parameters && x.metadata->0.location == y.metadata->0.location
                && x.metadata->0.expr == y.metadata->0.expr,
            (None, None) => true,
            _ => false,
        },
{
}

/// The arguments of a call do not decide whether it is matched, nor with which services.
pub proof fn arguments_do_not_decide_matches(
    a: PaginatorView,
    b: PaginatorView,
    c: CallView,
    d: CallView,
    imports: Seq<ImportView>,
    index: IndexView,
)
    requires
        b == (PaginatorView { parameters: b.parameters, expr: b.expr, ..a }),
        d == (CallView { parameters: d.parameters, expr: d.expr, receiver: d.receiver, ..c }),
    ensures
        matched_paginator(a, imports, index) is Some == matched_paginator(b, imports, index) is Some,
        matched_call(c, imports, index) is Some == matched_call(d, imports, index) is Some,
        matched_paginator(a, imports, index) is Some ==> matched_paginator(
            a,
            imports,
            index,
        )->0.possible_services == matched_paginator(b, imports, index)->0.possible_services,
        matched_call(c, imports, index) is Some ==> matched_call(
            c,
            imports,
            index,
        )->0.possible_services == matched_call(d, imports, index)->0.possible_services,
{
}

/// Calls are matched one by one, in their order.
pub proof fn calls_are_matched_one_by_one(
    a: Seq<CallView>,
    c: CallView,
    b: Seq<CallView>,
    imports: Seq<ImportView>,
    index: IndexView,
)
    ensures
        matched_calls(a + seq![c] + b, imports, index) == matched_calls(a, imports, index) + (
        match matched_call(c, imports, index) {
            Some(m) => seq![m],
            None => Seq::empty(),
        }) + matched_calls(b, imports, index),
    decreases b.len(),
{
    let v = a + seq![c] + b;
    let own = one_or_none(matched_call(c, imports, index));
    if b.len() == 0 {
        assert(v.drop_last() =~= a);
        assert(v.last() == c);
    } else {
        let t = b.drop_last();
        calls_are_matched_one_by_one(a, c, t, imports, index);
        assert(v.drop_last() =~= a + seq![c] + t);
        assert(v.last() == b.last());
    }
    assert(matched_calls(v, imports, index) =~= matched_calls(a, imports, index) + own
        + matched_calls(b, imports, index));
}

/// Paginators are matched one by one, in their order.
pub proof fn paginators_are_matched_one_by_one(
    a: Seq<PaginatorView>,
    p: PaginatorView,
    b: Seq<PaginatorView>,
    imports: Seq<ImportView>,
    index: IndexView,
)
    ensures
        matched_paginators(a + seq![p] + b, imports, index) == matched_paginators(a, imports, index)
            + (match matched_paginator(p, imports, index) {
            Some(m) => seq![m],
            None => Seq::empty(),
        }) + matched_paginators(b, imports, index),
    decreases b.len(),
{
    let v = a + seq![p] + b;
    let own = one_or_none(matched_paginator(p, imports, index));
    if b.len() == 0 {
        assert(v.drop_last() =~= a);
        assert(v.last() == p);
    } else {
        let t = b.drop_last();
        paginators_are_matched_one_by_one(a, p, t, imports, index);
        assert(v.drop_last() =~= a + seq![p] + t);
        assert(v.last() == b.last());
    }
    assert(matched_paginators(v, imports, index) =~= matched_paginators(a, imports, index) + own
        + matched_paginators(b, imports, index));
}

/// Waiters are matched one by one, in their order.
pub proof fn waiters_are_matched_one_by_one(
    a: Seq<WaiterView>,
    w: WaiterView,
    b: Seq<WaiterView>,
    imports: Seq<ImportView>,
    index: IndexView,
)
    ensures
        matched_waiters(a + seq![w] + b, imports, index) == matched_waiters(a, imports, index)
            + matched_waiter(w, imports, index) + matched_waiters(b, imports, index),
    decreases b.len(),
{
    let v = a + seq![w] + b;
    let own = matched_waiter(w, imports, index);
    if b.len() == 0 {
        assert(v.drop_last() =~= a);
        assert(v.last() == w);
    } else {
        let t = b.drop_last();
        waiters_are_matched_one_by_one(a, w, t, imports, index);
        assert(v.drop_last() =~= a + seq![w] + t);
        assert(v.last() == b.last());
    }
    assert(matched_waiters(v, imports, index) =~= matched_waiters(a, imports, index) + own
        + matched_waiters(b, imports, index));
}

spec fn group_has(gs: Seq<GroupView>, o: Seq<char>, s: Seq<char>) -> bool {
    exists|g: int| 0 <= g < gs.len() && (#[trigger] gs[g]).operation == o && gs[g].services.contains(s)
}

proof fn lemma_with_service(
    gs: Seq<GroupView>,
    operation: Seq<char>,
    service: Seq<char>,
    o: Seq<char>,
    s: Seq<char>,
)
    ensures
        group_has(with_service(gs, operation, service), o, s) == (group_has(gs, o, s) || (o
            == operation && s == service)),
    decreases gs.len(),
{
    broadcast use vstd::seq_lib::lemma_seq_contains_after_push;

    let r = with_service(gs, operation, service);
    let rest = gs.subrange(1, gs.len() as int);
    if gs.len() == 0 {
        assert(seq![service].contains(s) == (s == service)) by {
            assert(seq![service][0] == service);
        }
        if o == operation && s == service {
            assert(r[0].services.contains(s));
        }
    } else if gs[0].operation == operation {
        assert forall|g: int| 1 <= g < gs.len() implies r[g] == gs[g] by {
            assert(rest[g - 1] == gs[g]);
        }
        if o == operation && s == service {
            assert(r[0].services.contains(s));
        }
        if group_has(gs, o, s) {
            let g = choose|g: int|
                0 <= g < gs.len() && (#[trigger] gs[g]).operation == o && gs[g].services.contains(s);
            assert(r[g].operation == o && r[g].services.contains(s));
        }
        if group_has(r, o, s) {
            let g = choose|g: int|
                0 <= g < r.len() && (#[trigger] r[g]).operation == o && r[g].services.contains(s);
            if g > 0 {
                assert(gs[g].services.contains(s));
            } else if s != service {
                assert(gs[0].services.contains(s));
            }
        }
    } else {
        let more = with_service(rest, operation, service);
        lemma_with_service(rest, operation, service, o, s);
        assert forall|g: int| 1 <= g < r.len() implies r[g] == more[g - 1] by {}
        assert forall|g: int| 1 <= g < gs.len() implies gs[g] == rest[g - 1] by {}
        if group_has(gs, o, s) {
            let g = choose|g: int|
                0 <= g < gs.len() && (#[trigger] gs[g]).operation == o && gs[g].services.contains(s);
            if g == 0 {
                assert(r[0] == gs[0]);
            } else {
                assert(rest[g - 1].services.contains(s));
                assert(group_has(rest, o, s));
            }
        }
        if group_has(more, o, s) {
            let g = choose|g: int|
                0 <= g < more.len() && (#[trigger] more[g]).operation == o
                    && more[g].services.contains(s);
            assert(r[g + 1] == more[g]);
        }
        if group_has(r, o, s) {
            let g = choose|g: int|
                0 <= g < r.len() && (#[trigger] r[g]).operation == o && r[g].services.contains(s);
            if g == 0 {
                assert(gs[0] == r[0]);
            } else {
                assert(more[g - 1].services.contains(s));
                assert(group_has(more, o, s));
            }
        }
        if group_has(rest, o, s) {
            let g = choose|g: int|
                0 <= g < rest.len() && (#[trigger] rest[g]).operation == o
                    && rest[g].services.contains(s);
            assert(gs[g + 1] == rest[g]);
        }
    }
}

proof fn lemma_by_operation(
    refs: Seq<RefView>,
    services: Seq<Seq<char>>,
    o: Seq<char>,
    s: Seq<char>,
)
    ensures
        group_has(by_operation(refs, services), o, s) <==> services.contains(s) && exists|i: int|
            0 <= i < refs.len() && camel_case((#[trigger] refs[i]).operation_name) == o
                && refs[i].service_name == s,
    decreases refs.len(),
{
    if refs.len() > 0 {
        let t = refs.drop_last();
        let last = refs.last();
        lemma_by_operation(t, services, o, s);
        lemma_with_service(
            by_operation(t, services),
            camel_case(last.operation_name),
            last.service_name,
            o,
            s,
        );
        assert(refs[refs.len() - 1] == last);
        assert forall|i: int| 0 <= i < t.len() implies t[i] == refs[i] by {}
        if exists|i: int|
            0 <= i < t.len() && camel_case((#[trigger] t[i]).operation_name) == o
                && t[i].service_name == s {
            let i = choose|i: int|
                0 <= i < t.len() && camel_case((#[trigger] t[i]).operation_name) == o
                    && t[i].service_name == s;
            assert(refs[i].service_name == s);
        }
    }
}

/// A waiter is a call of each operation that it polls, with exactly the possible services whose
/// waiter polls that operation.
pub proof fn waiters_call_what_they_poll(
    w: WaiterView,
    imports: Seq<ImportView>,
    index: IndexView,
    o: Seq<char>,
    s: Seq<char>,
)
    ensures
        !index.waiters.contains_key(w.name) ==> matched_waiter(w, imports, index).len() == 0,
        index.waiters.contains_key(w.name) ==> ((exists|k: int|
            0 <= k < matched_waiter(w, imports, index).len() && (#[trigger] matched_waiter(
                w,
                imports,
                index,
            )[k]).name == o && matched_waiter(w, imports, index)[k].possible_services.contains(s))
            <==> (possible_services(
            w.receiver_declaration,
            seq!["Waiter"@, "AsyncWaiter"@],
            ref_services(index.waiters[w.name]),
            imports,
            w.location.file_path,
            index.service_ids,
        ).contains(s) && exists|i: int|
            0 <= i < index.waiters[w.name].len() && camel_case(
                (#[trigger] index.waiters[w.name][i]).operation_name,
            ) == o && index.waiters[w.name][i].service_name == s)),
        forall|k: int|
            0 <= k < matched_waiter(w, imports, index).len() ==> (#[trigger] matched_waiter(
                w,
                imports,
                index,
            )[k]).metadata == Some(
                MetadataView {
                    expr: w.expr,
                    location: w.location,
                    parameters: w.parameters,
                    receiver: None,
                },
            ),
{
    if index.waiters.contains_key(w.name) {
        let refs = index.waiters[w.name];
        let services = possible_services(
            w.receiver_declaration,
            waiter_suffixes(),
            ref_services(refs),
            imports,
            w.location.file_path,
            index.service_ids,
        );
        let gs = by_operation(refs, services);
        let cs = matched_waiter(w, imports, index);
        lemma_by_operation(refs, services, o, s);
        assert(cs.len() == gs.len());
        assert forall|k: int| 0 <= k < cs.len() implies cs[k].name == gs[k].operation
            && cs[k].possible_services == gs[k].services by {}
        if group_has(gs, o, s) {
            let g = choose|g: int|
                0 <= g < gs.len() && (#[trigger] gs[g]).operation == o && gs[g].services.contains(s);
            assert(cs[g].name == o);
        }
        if exists|k: int|
            0 <= k < cs.len() && (#[trigger] cs[k]).name == o && cs[k].possible_services.contains(
                s,
            ) {
            let k = choose|k: int|
                0 <= k < cs.len() && (#[trigger] cs[k]).name == o
                    && cs[k].possible_services.contains(s);
            assert(gs[k].operation == o && gs[k].services.contains(s));
        }
    }
}

/// The calls of what was found are those of the method calls, the waiters, the paginators and the
/// utilities, and no others.
pub proof fn everything_found_is_matched(x: ExtractionView, index: IndexView, model: ModelView)
    ensures
        all_matched(x, index, model) == matched_calls(x.calls, x.imports, index) + matched_waiters(
            x.waiters,
            x.imports,
            index,
        ) + matched_paginators(x.paginators, x.imports, index) + utility_calls(
            x.calls,
            x.utility_imports,
            model,
        ),
{
}

/// A paginator of a file whose operation some service has is among the calls of the file.
pub proof fn found_paginators_are_called(
    x: ExtractionView,
    k: int,
    index: IndexView,
    model: ModelView,
    services: Seq<Seq<char>>,
)
    requires
        0 <= k < x.paginators.len(),
        index.methods.contains_key(x.paginators[k].operation),
        services == possible_services(
            x.paginators[k].receiver_declaration,
            seq!["Client"@, "AsyncClient"@],
            ref_services(index.methods[x.paginators[k].operation]),
            x.imports,
            x.paginators[k].location.file_path,
            index.service_ids,
        ),
        services.len() > 0,
    ensures
        all_matched(x, index, model).contains(
            SdkCallView {
                name: x.paginators[k].operation,
                possible_services: services,
                metadata: Some(
                    MetadataView {
                        expr: x.paginators[k].expr,
                        location: x.paginators[k].location,
                        parameters: x.paginators[k].parameters,
                        receiver: None,
                    },
                ),
            },
        ),
{
    broadcast use lemma_seq_concat_contains_all_elements;

    let ps = x.paginators;
    let a = ps.subrange(0, k);
    let b = ps.subrange(k + 1, ps.len() as int);
    assert(ps =~= a + seq![ps[k]] + b);
    paginators_are_matched_one_by_one(a, ps[k], b, x.imports, index);
    let m = matched_paginator(ps[k], x.imports, index)->0;
    assert(seq![m][0] == m);
    assert(seq![m].contains(m));
}

/// A method call of a file whose operation some service has is among the calls of the file.
pub proof fn found_calls_are_called(
    x: ExtractionView,
    k: int,
    index: IndexView,
    model: ModelView,
    services: Seq<Seq<char>>,
)
    requires
        0 <= k < x.calls.len(),
        index.methods.contains_key(operation_of_method(x.calls[k].method)),
        services == possible_services(
            x.calls[k].receiver_declaration,
            seq!["Client"@, "AsyncClient"@],
            ref_services(index.methods[operation_of_method(x.calls[k].method)]),
            x.imports,
            x.calls[k].location.file_path,
            index.service_ids,
        ),
        services.len() > 0,
    ensures
        all_matched(x, index, model).contains(
            SdkCallView {
                name: operation_of_method(x.calls[k].method),
                possible_services: services,
                metadata: Some(
                    MetadataView {
                        expr: x.calls[k].expr,
                        location: x.calls[k].location,
                        parameters: x.calls[k].parameters,
                        receiver: x.calls[k].receiver,
                    },
                ),
            },
        ),
{
    broadcast use lemma_seq_concat_contains_all_elements;

    let cs = x.calls;
    let a = cs.subrange(0, k);
    let b = cs.subrange(k + 1, cs.len() as int);
    assert(cs =~= a + seq![cs[k]] + b);
    calls_are_matched_one_by_one(a, cs[k], b, x.imports, index);
    let m = matched_call(cs[k], x.imports, index)->0;
    assert(seq![m][0] == m);
    assert(seq![m].contains(m));
}

proof fn lemma_kept(s: Seq<Seq<char>>, p: spec_fn(Seq<char>) -> bool, x: Seq<char>)
    ensures
        kept(s, p).contains(x) == (s.contains(x) && p(x)),
    decreases s.len(),
{
    broadcast use vstd::seq_lib::lemma_seq_contains_after_push;

    if s.len() > 0 {
        let t = s.drop_last();
        lemma_kept(t, p, x);
        assert(s =~= t.push(s.last()));
    }
}

/// What is kept of a list is what fits, in its order.
pub proof fn fitting_services_are_kept(s: Seq<Seq<char>>, p: spec_fn(Seq<char>) -> bool)
    ensures
        kept(s, p) == s.filter(p),
    decreases s.len(),
{
    reveal(Seq::filter);
    if s.len() > 0 {
        fitting_services_are_kept(s.drop_last(), p);
    }
}

/// The services that a file imports are those of all its imports.
pub proof fn every_import_of_a_file_counts(
    imports: Seq<ImportView>,
    path: Seq<char>,
    x: Seq<char>,
)
    ensures
        services_imported(imports, path).contains(x) <==> exists|i: int|
            0 <= i < imports.len() && path_components((#[trigger] imports[i]).location.file_path)
                == path_components(path) && imports[i].service == x,
        services_imported(imports, path).len() == 0 <==> forall|i: int|
            0 <= i < imports.len() ==> path_components((#[trigger] imports[i]).location.file_path)
                != path_components(path),
    decreases imports.len(),
{
    broadcast use vstd::seq_lib::lemma_seq_contains_after_push;

    if imports.len() > 0 {
        let t = imports.drop_last();
        every_import_of_a_file_counts(t, path, x);
        assert(imports[imports.len() - 1] == imports.last());
        assert forall|i: int| 0 <= i < t.len() implies t[i] == imports[i] by {}
        if services_imported(t, path).contains(x) {
            let i = choose|i: int|
                0 <= i < t.len() && path_components((#[trigger] t[i]).location.file_path)
                    == path_components(path) && t[i].service == x;
            assert(imports[i].service == x);
        }
        if services_imported(t, path).len() > 0 && exists|i: int|
            0 <= i < t.len() && path_components((#[trigger] t[i]).location.file_path)
                == path_components(path) {
            let i = choose|i: int|
                0 <= i < t.len() && path_components((#[trigger] t[i]).location.file_path)
                    == path_components(path);
            assert(path_components(imports[i].location.file_path) == path_components(path));
        }
    }
}

/// Where the type of the receiver is not known, a service is possible if the file imports it; in a
/// file without imports of services every service of the operation is.
pub proof fn unknown_receivers_go_by_imports(
    receiver: Option<DeclarationView>,
    suffixes: Seq<Seq<char>>,
    services: Seq<Seq<char>>,
    imports: Seq<ImportView>,
    path: Seq<char>,
    ids: Map<Seq<char>, Seq<char>>,
    x: Seq<char>,
)
    requires
        receiver is None || receiver->0.declared_type is None,
    ensures
        possible_services(receiver, suffixes, services, imports, path, ids).contains(x) <==> (
        services.contains(x) && ((exists|i: int|
            0 <= i < imports.len() && path_components((#[trigger] imports[i]).location.file_path)
                == path_components(path) && imports[i].service == x) || (forall|i: int|
            0 <= i < imports.len() ==> path_components((#[trigger] imports[i]).location.file_path)
                != path_components(path)))),
{
    let imported = services_imported(imports, path);
    every_import_of_a_file_counts(imports, path, x);
    lemma_kept(services, is_one_of(imported), x);
}

/// A receiver whose type is written with its package belongs to the service that the package names.
pub proof fn qualified_types_name_their_service(
    receiver: Option<DeclarationView>,
    suffixes: Seq<Seq<char>>,
    services: Seq<Seq<char>>,
    imports: Seq<ImportView>,
    path: Seq<char>,
    ids: Map<Seq<char>, Seq<char>>,
    service: Seq<char>,
    rest: Seq<char>,
    x: Seq<char>,
)
    requires
        receiver is Some,
        receiver->0.declared_type == Some(
            "software.amazon.awssdk.services."@ + service + seq!['.'] + rest,
        ),
        !service.contains('.'),
    ensures
        possible_services(receiver, suffixes, services, imports, path, ids).contains(x) <==> (
        services.contains(x) && x == service),
{
    crate::java::import_laws::packages_name_services(service, rest);
    lemma_kept(services, is_text(service), x);
}

/// A receiver of a class that the file imports belongs to the service of the first such import; one
/// of another class belongs to the services whose name with one of the endings is the class.
pub proof fn classes_name_their_service(
    receiver: Option<DeclarationView>,
    name: Seq<char>,
    suffixes: Seq<Seq<char>>,
    services: Seq<Seq<char>>,
    imports: Seq<ImportView>,
    path: Seq<char>,
    ids: Map<Seq<char>, Seq<char>>,
    i: int,
    x: Seq<char>,
)
    requires
        receiver is Some,
        receiver->0.declared_type == Some(name),
        forall|s: Seq<char>| name != #[trigger] ("software.amazon.awssdk.services."@ + s),
        0 <= i <= imports.len(),
        forall|j: int|
            0 <= j < i ==> path_components((#[trigger] imports[j]).location.file_path)
                != path_components(path) || split_on(imports[j].expr, '.').last() != name,
        i < imports.len() ==> path_components(imports[i].location.file_path) == path_components(
            path,
        ) && split_on(imports[i].expr, '.').last() == name,
    ensures
        i < imports.len() ==> (possible_services(
            receiver,
            suffixes,
            services,
            imports,
            path,
            ids,
        ).contains(x) <==> services.contains(x) && x == imports[i].service),
        i == imports.len() ==> (possible_services(
            receiver,
            suffixes,
            services,
            imports,
            path,
            ids,
        ).contains(x) <==> services.contains(x) && ids.contains_key(x) && exists|k: int|
            0 <= k < suffixes.len() && name == ids[x].filter(|c: char| c != ' ')
                + #[trigger] suffixes[k]),
{
    crate::text_laws::texts_without_prefix(name, "software.amazon.awssdk.services."@);
    lemma_class(imports, path, name, i);
    if i < imports.len() {
        lemma_kept(services, is_text(imports[i].service), x);
    } else {
        lemma_kept(services, is_class_of(ids, name, suffixes), x);
        if ids.contains_key(x) {
            crate::text_laws::removed_characters_are_gone(ids[x], ' ');
            let base = without(ids[x], ' ');
            if some_suffix_gives(base, suffixes, name) {
                let k = choose|k: int|
                    0 <= k < suffixes.len() && base + #[trigger] suffixes[k] == name;
                assert(name == ids[x].filter(|c: char| c != ' ') + suffixes[k]);
            }
            if exists|k: int|
                0 <= k < suffixes.len() && name == ids[x].filter(|c: char| c != ' ')
                    + #[trigger] suffixes[k] {
                let k = choose|k: int|
                    0 <= k < suffixes.len() && name == ids[x].filter(|c: char| c != ' ')
                        + #[trigger] suffixes[k];
                assert(base + suffixes[k] == name);
            }
        }
    }
}

proof fn lemma_class(imports: Seq<ImportView>, path: Seq<char>, name: Seq<char>, i: int)
    requires
        0 <= i <= imports.len(),
        forall|j: int|
            0 <= j < i ==> path_components((#[trigger] imports[j]).location.file_path)
                != path_components(path) || split_on(imports[j].expr, '.').last() != name,
        i < imports.len() ==> path_components(imports[i].location.file_path) == path_components(
            path,
        ) && split_on(imports[i].expr, '.').last() == name,
    ensures
        i < imports.len() ==> service_of_class(imports, path, name) == Some(imports[i].service),
        i == imports.len() ==> service_of_class(imports, path, name) is None,
    decreases imports.len(),
{
    if i > 0 {
        let t = imports.subrange(1, imports.len() as int);
        assert(path_components(imports[0].location.file_path) != path_components(path) || split_on(
            imports[0].expr,
            '.',
        ).last() != name);
        assert forall|j: int| 0 <= j < i - 1 implies path_components(
            (#[trigger] t[j]).location.file_path,
        ) != path_components(path) || split_on(t[j].expr, '.').last() != name by {
            assert(t[j] == imports[j + 1]);
        }
        lemma_class(t, path, name, i - 1);
    }
}

/// What is found in two places is all that is found in either.
pub proof fn findings_add_up(a: ExtractionView, b: ExtractionView)
    ensures
        both_found(a, b).calls == a.calls + b.calls,
        both_found(a, b).waiters == a.waiters + b.waiters,
        both_found(a, b).paginators == a.paginators + b.paginators,
        both_found(a, b).imports == a.imports + b.imports,
        both_found(a, b).utility_imports == a.utility_imports + b.utility_imports,
{
}

/// A service joins the first group of its operation, behind the services there; without such a group
/// it starts a new one behind the others.
pub proof fn services_join_their_group(
    gs: Seq<GroupView>,
    operation: Seq<char>,
    service: Seq<char>,
    i: int,
)
    requires
        0 <= i <= gs.len(),
        forall|j: int| 0 <= j < i ==> (#[trigger] gs[j]).operation != operation,
        i < gs.len() ==> gs[i].operation == operation,
    ensures
        i < gs.len() ==> with_service(gs, operation, service) == gs.update(
            i,
            GroupView { operation, services: gs[i].services.push(service) },
        ),
        i == gs.len() ==> with_service(gs, operation, service) == gs.push(
            GroupView { operation, services: seq![service] },
        ),
    decreases gs.len(),
{
    let r = with_service(gs, operation, service);
    if gs.len() > 0 {
        let rest = gs.subrange(1, gs.len() as int);
        if i > 0 {
            assert(gs[0].operation != operation);
            assert forall|j: int| 0 <= j < i - 1 implies (#[trigger] rest[j]).operation
                != operation by {
                assert(rest[j] == gs[j + 1]);
            }
            services_join_their_group(rest, operation, service, i - 1);
        }
    }
    if i < gs.len() {
        assert(r =~= gs.update(
            i,
            GroupView { operation, services: gs[i].services.push(service) },
        ));
    } else {
        assert(r =~= gs.push(GroupView { operation, services: seq![service] }));
    }
}

/// What a waiter of the services polls is grouped one by one; services that are not possible are left
/// out.
pub proof fn polled_operations_are_grouped_one_by_one(
    refs: Seq<RefView>,
    r: RefView,
    services: Seq<Seq<char>>,
)
    ensures
        services.contains(r.service_name) ==> by_operation(refs.push(r), services) == with_service(
            by_operation(refs, services),
            camel_case(r.operation_name),
            r.service_name,
        ),
        !services.contains(r.service_name) ==> by_operation(refs.push(r), services) == by_operation(
            refs,
            services,
        ),
        by_operation(Seq::empty(), services).len() == 0,
{
    assert(refs.push(r).drop_last() =~= refs);
}

/// The possible services keep the order of the services of the operation, as often as they stand
/// there.
pub proof fn possible_services_keep_their_order(
    receiver: Option<DeclarationView>,
    suffixes: Seq<Seq<char>>,
    services: Seq<Seq<char>>,
    imports: Seq<ImportView>,
    path: Seq<char>,
    ids: Map<Seq<char>, Seq<char>>,
)
    ensures
        exists|p: spec_fn(Seq<char>) -> bool|
            possible_services(receiver, suffixes, services, imports, path, ids)
                == #[trigger] services.filter(p),
{
    let r = possible_services(receiver, suffixes, services, imports, path, ids);
    let all = |s: Seq<char>| true;
    lemma_all_kept(services);
    match receiver_type_of(receiver) {
        Some(name) => {
            let by_package = crate::java::imports::service_segment(name);
            let by_class = service_of_class(imports, path, name);
            if by_package is Some {
                fitting_services_are_kept(services, is_text(by_package->0));
            } else if by_class is Some {
                fitting_services_are_kept(services, is_text(by_class->0));
            } else {
                fitting_services_are_kept(services, is_class_of(ids, name, suffixes));
            }
        },
        None => {
            let imported = services_imported(imports, path);
            if imported.len() == 0 {
                assert(r == services.filter(all));
            } else {
                fitting_services_are_kept(services, is_one_of(imported));
            }
        },
    }
}

proof fn lemma_all_kept(s: Seq<Seq<char>>)
    ensures
        s.filter(|x: Seq<char>| true) == s,
    decreases s.len(),
{
    reveal(Seq::filter);
    if s.len() > 0 {
        lemma_all_kept(s.drop_last());
        assert(s.drop_last().push(s.last()) =~= s);
    }
}

/// The services of an operation are those of its entries, in their order.
pub proof fn operations_have_the_services_of_their_entries(refs: Seq<RefView>, i: int)
    ensures
        ref_services(refs).len() == refs.len(),
        0 <= i < refs.len() ==> ref_services(refs)[i] == refs[i].service_name,
{
}

} // verus!
