//! Which SDK operations the extracted calls mean.

use vstd::prelude::*;

use crate::casing::{camel_case, to_camel_case};
use crate::java::services::{
    import_views, possible_services, ref_services, ref_views, resolve_services, services_of,
    IndexView, RefView, ServiceMethodRef, ServiceModelIndex,
};
use crate::java::types::{
    Call, CallView, ExtractionResult, ExtractionView, Import, ImportView, Paginator, PaginatorView,
    Waiter, WaiterView,
};
use crate::java::utilities::{match_utilities, utility_calls, JavaUtilitiesModel, ModelView};
use crate::sdk::{
    call_views, copy_parameters, MetadataView, SdkCallView, SdkMethodCall, SdkMethodCallMetadata,
};
use crate::text::{before_suffix, contains_text, same, strip_suffix, texts};

verus! {

/// What the name of a service client adds to the name of the service.
pub open spec fn client_suffixes() -> Seq<Seq<char>> {
    seq!["Client"@, "AsyncClient"@]
}

/// What the name of a waiter adds to the name of the service.
pub open spec fn waiter_suffixes() -> Seq<Seq<char>> {
    seq!["Waiter"@, "AsyncWaiter"@]
}

fn client_suffix_list() -> (r: Vec<String>)
    ensures
        texts(r@) == client_suffixes(),
{
    let r = vec!["Client".to_string(), "AsyncClient".to_string()];
    assert(texts(r@) =~= client_suffixes());
    r
}

fn waiter_suffix_list() -> (r: Vec<String>)
    ensures
        texts(r@) == waiter_suffixes(),
{
    let r = vec!["Waiter".to_string(), "AsyncWaiter".to_string()];
    assert(texts(r@) =~= waiter_suffixes());
    r
}

pub open spec fn one_or_none(o: Option<SdkCallView>) -> Seq<SdkCallView> {
    match o {
        Some(c) => seq![c],
        None => Seq::empty(),
    }
}

/// The operation that a method stands for. `...AsBytes` methods are variants of the operation
/// without that suffix.
pub open spec fn operation_of_method(method: Seq<char>) -> Seq<char> {
    match before_suffix(method, "AsBytes"@) {
        Some(name) => name,
        None => method,
    }
}

/// The SDK call that a method call is, if it is one.
pub open spec fn matched_call(c: CallView, imports: Seq<ImportView>, index: IndexView) -> Option<
    SdkCallView,
> {
    let name = operation_of_method(c.method);
    if !index.methods.contains_key(name) {
        None
    } else {
        let services = possible_services(
            c.receiver_declaration,
            client_suffixes(),
            ref_services(index.methods[name]),
            imports,
            c.location.file_path,
            index.service_ids,
        );
        if services.len() == 0 {
            None
        } else {
            Some(
                SdkCallView {
                    name,
                    possible_services: services,
                    metadata: Some(
                        MetadataView {
                            expr: c.expr,
                            location: c.location,
                            parameters: c.parameters,
                            receiver: c.receiver,
                        },
                    ),
                },
            )
        }
    }
}

/// The SDK calls among the method calls, in their order.
pub open spec fn matched_calls(cs: Seq<CallView>, imports: Seq<ImportView>, index: IndexView) -> Seq<
    SdkCallView,
>
    decreases cs.len(),
{
    if cs.len() == 0 {
        Seq::empty()
    } else {
        matched_calls(cs.drop_last(), imports, index) + one_or_none(
            matched_call(cs.last(), imports, index),
        )
    }
}

/// The SDK call that a paginator call is, if it is one.
pub open spec fn matched_paginator(
    p: PaginatorView,
    imports: Seq<ImportView>,
    index: IndexView,
) -> Option<SdkCallView> {
    if !index.methods.contains_key(p.operation) {
        None
    } else {
        let services = possible_services(
            p.receiver_declaration,
            client_suffixes(),
            ref_services(index.methods[p.operation]),
            imports,
            p.location.file_path,
            index.service_ids,
        );
        if services.len() == 0 {
            None
        } else {
            Some(
                SdkCallView {
                    name: p.operation,
                    possible_services: services,
                    metadata: Some(
                        MetadataView {
                            expr: p.expr,
                            location: p.location,
                            parameters: p.parameters,
                            receiver: None,
                        },
                    ),
                },
            )
        }
    }
}

/// The SDK calls among the paginator calls, in their order.
pub open spec fn matched_paginators(
    ps: Seq<PaginatorView>,
    imports: Seq<ImportView>,
    index: IndexView,
) -> Seq<SdkCallView>
    decreases ps.len(),
{
    if ps.len() == 0 {
        Seq::empty()
    } else {
        matched_paginators(ps.drop_last(), imports, index) + one_or_none(
            matched_paginator(ps.last(), imports, index),
        )
    }
}

/// Services that poll the same operation.
pub struct GroupView {
    pub operation: Seq<char>,
    pub services: Seq<Seq<char>>,
}

struct Group {
    operation: String,
    services: Vec<String>,
}

impl View for Group {
    type V = GroupView;

    closed spec fn view(&self) -> GroupView {
        GroupView { operation: self.operation@, services: texts(self.services@) }
    }
}

spec fn group_views(v: Seq<Group>) -> Seq<GroupView> {
    v.map_values(|g: Group| g@)
}

/// The groups with the service added to the group of the operation, or with a new group for it.
pub open spec fn with_service(
    gs: Seq<GroupView>,
    operation: Seq<char>,
    service: Seq<char>,
) -> Seq<GroupView>
    decreases gs.len(),
{
    if gs.len() == 0 {
        seq![GroupView { operation, services: seq![service] }]
    } else if gs[0].operation == operation {
        seq![GroupView { operation, services: gs[0].services.push(service) }] + gs.subrange(
            1,
            gs.len() as int,
        )
    } else {
        seq![gs[0]] + with_service(gs.subrange(1, gs.len() as int), operation, service)
    }
}

/// The services among `services` by the operation that they poll, in the order of `refs`.
pub open spec fn by_operation(refs: Seq<RefView>, services: Seq<Seq<char>>) -> Seq<GroupView>
    decreases refs.len(),
{
    if refs.len() == 0 {
        Seq::empty()
    } else {
        let before = by_operation(refs.drop_last(), services);
        if services.contains(refs.last().service_name) {
            with_service(before, camel_case(refs.last().operation_name), refs.last().service_name)
        } else {
            before
        }
    }
}

/// The SDK calls that a waiter makes: one for each operation that is polled.
pub open spec fn calls_of_groups(w: WaiterView, gs: Seq<GroupView>) -> Seq<SdkCallView> {
    gs.map_values(
        |g: GroupView|
            SdkCallView {
                name: g.operation,
                possible_services: g.services,
                metadata: Some(
                    MetadataView {
                        expr: w.expr,
                        location: w.location,
                        parameters: w.parameters,
                        receiver: None,
                    },
                ),
            },
    )
}

/// The SDK calls that a waiter call is.
pub open spec fn matched_waiter(w: WaiterView, imports: Seq<ImportView>, index: IndexView) -> Seq<
    SdkCallView,
> {
    if !index.waiters.contains_key(w.name) {
        Seq::empty()
    } else {
        let refs = index.waiters[w.name];
        let services = possible_services(
            w.receiver_declaration,
            waiter_suffixes(),
            ref_services(refs),
            imports,
            w.location.file_path,
            index.service_ids,
        );
        calls_of_groups(w, by_operation(refs, services))
    }
}

/// The SDK calls among the waiter calls, in their order.
pub open spec fn matched_waiters(
    ws: Seq<WaiterView>,
    imports: Seq<ImportView>,
    index: IndexView,
) -> Seq<SdkCallView>
    decreases ws.len(),
{
    if ws.len() == 0 {
        Seq::empty()
    } else {
        matched_waiters(ws.drop_last(), imports, index) + matched_waiter(ws.last(), imports, index)
    }
}

/// All SDK calls of an extraction: method calls, waiters, paginators, utilities.
pub open spec fn all_matched(x: ExtractionView, index: IndexView, model: ModelView) -> Seq<
    SdkCallView,
> {
    matched_calls(x.calls, x.imports, index) + matched_waiters(x.waiters, x.imports, index)
        + matched_paginators(x.paginators, x.imports, index) + utility_calls(
        x.calls,
        x.utility_imports,
        model,
    )
}

/// The SDK call that a method call is, if it is one.
pub fn match_call(call: &Call, index: &ServiceModelIndex, imports: &Vec<Import>) -> (r: Option<
    SdkMethodCall,
>)
    ensures
        match r {
            Some(c) => matched_call(call@, import_views(imports@), index@) == Some(c@),
            None => matched_call(call@, import_views(imports@), index@) is None,
        },
{
    let name = match strip_suffix(call.method.as_str(), "AsBytes") {
        Some(name) => name,
        None => call.method.clone(),
    };
    match index.method_lookup.get(name.as_str()) {
        Some(refs) => {
            let suffixes = client_suffix_list();
            let services = resolve_services(
                &call.receiver_declaration,
                &suffixes,
                services_of(refs),
                imports,
                call.location.file_path.as_str(),
                index,
            );
            assert(texts(services@).len() == services@.len());
            if services.len() == 0 {
                return None;
            }
            let metadata = SdkMethodCallMetadata::new(
                call.expr.clone(),
                call.location.clone(),
            ).with_parameters(copy_parameters(&call.parameters));
            let metadata = match &call.receiver {
                Some(receiver) => metadata.with_receiver(receiver.clone()),
                None => metadata,
            };
            Some(SdkMethodCall { name, possible_services: services, metadata: Some(metadata) })
        },
        None => None,
    }
}

/// The SDK calls among the method calls.
pub fn match_service_calls(result: &ExtractionResult, index: &ServiceModelIndex) -> (r: Vec<
    SdkMethodCall,
>)
    ensures
        call_views(r@) == matched_calls(result@.calls, result@.imports, index@),
{
    let mut out: Vec<SdkMethodCall> = Vec::new();
    let ghost cs = result@.calls;
    let ghost im = import_views(result.imports@);
    let mut i: usize = 0;
    assert(call_views(out@) =~= Seq::<SdkCallView>::empty());
    assert(cs.subrange(0, 0).len() == 0);
    while i < result.calls.len()
        invariant
            i <= result.calls@.len(),
            cs == result@.calls,
            im == import_views(result.imports@),
            call_views(out@) == matched_calls(cs.subrange(0, i as int), im, index@),
        decreases result.calls@.len() - i,
    {
        let ghost u = cs.subrange(0, i + 1);
        let ghost before = call_views(out@);
        assert(u.drop_last() =~= cs.subrange(0, i as int));
        assert(u.last() == result.calls@[i as int]@);
        match match_call(&result.calls[i], index, &result.imports) {
            Some(c) => {
                out.push(c);
                assert(call_views(out@) =~= before + seq![c@]);
            },
            None => {
                assert(before + Seq::<SdkCallView>::empty() =~= before);
            },
        }
        i = i + 1;
    }
    assert(cs.subrange(0, cs.len() as int) =~= cs);
    out
}

fn match_paginator(p: &Paginator, index: &ServiceModelIndex, imports: &Vec<Import>) -> (r: Option<
    SdkMethodCall,
>)
    ensures
        match r {
            Some(c) => matched_paginator(p@, import_views(imports@), index@) == Some(c@),
            None => matched_paginator(p@, import_views(imports@), index@) is None,
        },
{
    match index.method_lookup.get(p.operation.as_str()) {
        Some(refs) => {
            let suffixes = client_suffix_list();
            let services = resolve_services(
                &p.receiver_declaration,
                &suffixes,
                services_of(refs),
                imports,
                p.location.file_path.as_str(),
                index,
            );
            assert(texts(services@).len() == services@.len());
            if services.len() == 0 {
                return None;
            }
            let metadata = SdkMethodCallMetadata::new(
                p.expr.clone(),
                p.location.clone(),
            ).with_parameters(copy_parameters(&p.parameters));
            Some(
                SdkMethodCall {
                    name: p.operation.clone(),
                    possible_services: services,
                    metadata: Some(metadata),
                },
            )
        },
        None => None,
    }
}

/// The SDK calls among the paginator calls.
pub fn match_paginators(result: &ExtractionResult, index: &ServiceModelIndex) -> (r: Vec<
    SdkMethodCall,
>)
    ensures
        call_views(r@) == matched_paginators(result@.paginators, result@.imports, index@),
{
    let mut out: Vec<SdkMethodCall> = Vec::new();
    let ghost ps = result@.paginators;
    let ghost im = import_views(result.imports@);
    let mut i: usize = 0;
    assert(call_views(out@) =~= Seq::<SdkCallView>::empty());
    assert(ps.subrange(0, 0).len() == 0);
    while i < result.paginators.len()
        invariant
            i <= result.paginators@.len(),
            ps == result@.paginators,
            im == import_views(result.imports@),
            call_views(out@) == matched_paginators(ps.subrange(0, i as int), im, index@),
        decreases result.paginators@.len() - i,
    {
        let ghost u = ps.subrange(0, i + 1);
        let ghost before = call_views(out@);
        assert(u.drop_last() =~= ps.subrange(0, i as int));
        assert(u.last() == result.paginators@[i as int]@);
        match match_paginator(&result.paginators[i], index, &result.imports) {
            Some(c) => {
                out.push(c);
                assert(call_views(out@) =~= before + seq![c@]);
            },
            None => {
                assert(before + Seq::<SdkCallView>::empty() =~= before);
            },
        }
        i = i + 1;
    }
    assert(ps.subrange(0, ps.len() as int) =~= ps);
    out
}

proof fn lemma_with_service_at(gs: Seq<GroupView>, i: int, operation: Seq<char>, service: Seq<char>)
    requires
        0 <= i <= gs.len(),
        forall|j: int| 0 <= j < i ==> #[trigger] gs[j].operation != operation,
        i < gs.len() ==> gs[i].operation == operation,
    ensures
        with_service(gs, operation, service) == (if i < gs.len() {
            gs.update(i, GroupView { operation, services: gs[i].services.push(service) })
        } else {
            gs.push(GroupView { operation, services: seq![service] })
        }),
    decreases gs.len(),
{
    if gs.len() == 0 {
        assert(gs.push(GroupView { operation, services: seq![service] }) =~= seq![
            GroupView { operation, services: seq![service] },
        ]);
    } else if i == 0 {
        let g = GroupView { operation, services: gs[0].services.push(service) };
        assert(gs.update(0, g) =~= seq![g] + gs.subrange(1, gs.len() as int));
    } else {
        let rest = gs.subrange(1, gs.len() as int);
        assert forall|j: int| 0 <= j < i - 1 implies #[trigger] rest[j].operation != operation by {
            assert(rest[j] == gs[j + 1]);
        }
        lemma_with_service_at(rest, i - 1, operation, service);
        assert(gs[0].operation != operation);
        if i < gs.len() {
            let g = GroupView { operation, services: gs[i].services.push(service) };
            assert(rest[i - 1] == gs[i]);
            assert(gs.update(i, g) =~= seq![gs[0]] + rest.update(i - 1, g));
        } else {
            let g = GroupView { operation, services: seq![service] };
            assert(gs.push(g) =~= seq![gs[0]] + rest.push(g));
        }
    }
}

fn add_service(groups: &mut Vec<Group>, operation: String, service: String)
    ensures
        group_views(final(groups)@) == with_service(
            group_views(old(groups)@),
            operation@,
            service@,
        ),
{
    let ghost gs = group_views(groups@);
    let mut i: usize = 0;
    while i < groups.len() && !same(groups[i].operation.as_str(), operation.as_str())
        invariant
            i <= groups@.len(),
            groups@ == old(groups)@,
            gs == group_views(groups@),
            forall|j: int| 0 <= j < i ==> #[trigger] gs[j].operation != operation@,
        decreases groups@.len() - i,
    {
        i = i + 1;
    }
    proof {
        if i < gs.len() {
            assert(gs[i as int].operation == groups@[i as int].operation@);
        }
        lemma_with_service_at(gs, i as int, operation@, service@);
    }
    if i < groups.len() {
        let ghost g0 = groups@[i as int];
        let mut g = groups.remove(i);
        let ghost text = service@;
        g.services.push(service);
        proof {
            assert(texts(g.services@) =~= texts(g0.services@).push(text));
        }
        groups.insert(i, g);
        assert(group_views(groups@) =~= gs.update(i as int, g@));
    } else {
        let services = vec![service];
        assert(texts(services@) =~= seq![service@]);
        let g = Group { operation, services };
        groups.push(g);
        assert(group_views(groups@) =~= gs.push(g@));
    }
}

fn group_by_operation(refs: &Vec<ServiceMethodRef>, services: &Vec<String>) -> (r: Vec<Group>)
    ensures
        group_views(r@) == by_operation(ref_views(refs@), texts(services@)),
{
    let mut out: Vec<Group> = Vec::new();
    let ghost rs = ref_views(refs@);
    let mut i: usize = 0;
    assert(group_views(out@) =~= Seq::<GroupView>::empty());
    assert(rs.subrange(0, 0).len() == 0);
    while i < refs.len()
        invariant
            i <= refs@.len(),
            rs == ref_views(refs@),
            group_views(out@) == by_operation(rs.subrange(0, i as int), texts(services@)),
        decreases refs@.len() - i,
    {
        let ghost u = rs.subrange(0, i + 1);
        assert(u.drop_last() =~= rs.subrange(0, i as int));
        assert(u.last() == refs@[i as int]@);
        if contains_text(services, refs[i].service_name.as_str()) {
            let operation = to_camel_case(refs[i].operation_name.as_str());
            add_service(&mut out, operation, refs[i].service_name.clone());
        }
        i = i + 1;
    }
    assert(rs.subrange(0, rs.len() as int) =~= rs);
    out
}

fn append_groups(out: &mut Vec<SdkMethodCall>, waiter: &Waiter, groups: Vec<Group>)
    ensures
        call_views(final(out)@) == call_views(old(out)@) + calls_of_groups(
            waiter@,
            group_views(groups@),
        ),
{
    let ghost start = call_views(out@);
    let ghost gs = group_views(groups@);
    let ghost all = calls_of_groups(waiter@, gs);
    let mut i: usize = 0;
    assert(start + all.subrange(0, 0) =~= start);
    while i < groups.len()
        invariant
            i <= groups@.len(),
            gs == group_views(groups@),
            all == calls_of_groups(waiter@, gs),
            call_views(out@) == start + all.subrange(0, i as int),
        decreases groups@.len() - i,
    {
        let ghost before = call_views(out@);
        let metadata = SdkMethodCallMetadata::new(
            waiter.expr.clone(),
            waiter.location.clone(),
        ).with_parameters(copy_parameters(&waiter.parameters));
        let call = SdkMethodCall {
            name: groups[i].operation.clone(),
            possible_services: crate::sdk::copy_texts(&groups[i].services),
            metadata: Some(metadata),
        };
        out.push(call);
        proof {
            assert(gs[i as int] == groups@[i as int]@);
            assert(all[i as int] == call@);
            assert(call_views(out@) =~= before.push(call@));
            assert(start + all.subrange(0, i + 1) =~= (start + all.subrange(0, i as int)).push(
                all[i as int],
            ));
        }
        i = i + 1;
    }
    assert(all.subrange(0, all.len() as int) =~= all);
}

/// The SDK calls among the waiter calls. The name of such a call is that of the operation that the
/// waiter polls.
pub fn match_waiters(result: &ExtractionResult, index: &ServiceModelIndex) -> (r: Vec<
    SdkMethodCall,
>)
    ensures
        call_views(r@) == matched_waiters(result@.waiters, result@.imports, index@),
{
    let mut out: Vec<SdkMethodCall> = Vec::new();
    let ghost ws = result@.waiters;
    let ghost im = import_views(result.imports@);
    let mut i: usize = 0;
    assert(call_views(out@) =~= Seq::<SdkCallView>::empty());
    assert(ws.subrange(0, 0).len() == 0);
    while i < result.waiters.len()
        invariant
            i <= result.waiters@.len(),
            ws == result@.waiters,
            im == import_views(result.imports@),
            call_views(out@) == matched_waiters(ws.subrange(0, i as int), im, index@),
        decreases result.waiters@.len() - i,
    {
        let ghost u = ws.subrange(0, i + 1);
        let ghost before = call_views(out@);
        let waiter = &result.waiters[i];
        assert(u.drop_last() =~= ws.subrange(0, i as int));
        assert(u.last() == waiter@);
        match index.waiter_lookup.get(waiter.name.as_str()) {
            Some(refs) => {
                let suffixes = waiter_suffix_list();
                let services = resolve_services(
                    &waiter.receiver_declaration,
                    &suffixes,
                    services_of(refs),
                    &result.imports,
                    waiter.location.file_path.as_str(),
                    index,
                );
                let groups = group_by_operation(refs, &services);
                append_groups(&mut out, waiter, groups);
            },
            None => {
                assert(before + Seq::<SdkCallView>::empty() =~= before);
            },
        }
        i = i + 1;
    }
    assert(ws.subrange(0, ws.len() as int) =~= ws);
    out
}

/// Finds the SDK calls of an extraction by the operations of all services and the utility methods.
pub struct JavaMatcher<'a> {
    pub service_index: &'a ServiceModelIndex,
    pub utility_model: &'a JavaUtilitiesModel,
}

impl<'a> JavaMatcher<'a> {
    pub fn new(
        service_index: &'a ServiceModelIndex,
        utility_model: &'a JavaUtilitiesModel,
    ) -> (r: Self)
        ensures
            r.service_index == service_index,
            r.utility_model == utility_model,
    {
        JavaMatcher { service_index, utility_model }
    }

    /// All SDK calls of an extraction: method calls, waiters, paginators, utilities.
    pub fn match_calls(&self, result: &ExtractionResult) -> (r: Vec<SdkMethodCall>)
        ensures
            call_views(r@) == all_matched(result@, self.service_index@, self.utility_model@),
    {
        let mut out = match_service_calls(result, self.service_index);
        let mut waiters = match_waiters(result, self.service_index);
        let mut paginators = match_paginators(result, self.service_index);
        let mut utilities = match_utilities(result, self.utility_model);
        let ghost a = call_views(out@);
        let ghost b = call_views(waiters@);
        let ghost c = call_views(paginators@);
        let ghost d = call_views(utilities@);
        out.append(&mut waiters);
        out.append(&mut paginators);
        out.append(&mut utilities);
        assert(call_views(out@) =~= a + b + c + d);
        out
    }
}

proof fn lemma_with_service_once(gs: Seq<GroupView>, operation: Seq<char>, service: Seq<char>)
    requires
        operations_once(gs),
    ensures
        operations_once(with_service(gs, operation, service)),
        forall|i: int|
            0 <= i < with_service(gs, operation, service).len() ==> (#[trigger] with_service(
                gs,
                operation,
                service,
            )[i]).operation == operation || exists|j: int|
                0 <= j < gs.len() && with_service(gs, operation, service)[i].operation
                    == #[trigger] gs[j].operation,
    decreases gs.len(),
{
    let r = with_service(gs, operation, service);
    if gs.len() > 0 {
        let rest = gs.subrange(1, gs.len() as int);
        assert forall|i: int, j: int| 0 <= i < j < rest.len() implies #[trigger] rest[i].operation
            != #[trigger] rest[j].operation by {
            assert(gs[i + 1].operation != gs[j + 1].operation);
        }
        if gs[0].operation == operation {
            assert forall|i: int, j: int| 0 <= i < j < r.len() implies #[trigger] r[i].operation
                != #[trigger] r[j].operation by {
                assert(r[i].operation == gs[i].operation);
                assert(r[j].operation == gs[j].operation);
            }
            assert forall|i: int| 0 <= i < r.len() implies (#[trigger] r[i]).operation == operation
                || exists|j: int|
                0 <= j < gs.len() && r[i].operation == #[trigger] gs[j].operation by {
                assert(r[i].operation == gs[i].operation);
            }
        } else {
            lemma_with_service_once(rest, operation, service);
            let t = with_service(rest, operation, service);
            assert forall|i: int, j: int| 0 <= i < j < r.len() implies #[trigger] r[i].operation
                != #[trigger] r[j].operation by {
                assert(r[j] == t[j - 1]);
                if i == 0 {
                    if t[j - 1].operation != operation {
                        let k = choose|k: int|
                            0 <= k < rest.len() && t[j - 1].operation
                                == #[trigger] rest[k].operation;
                        assert(rest[k] == gs[k + 1]);
                        assert(gs[0].operation != gs[k + 1].operation);
                    }
                } else {
                    assert(r[i] == t[i - 1]);
                }
            }
            assert forall|i: int| 0 <= i < r.len() implies (#[trigger] r[i]).operation == operation
                || exists|j: int|
                0 <= j < gs.len() && r[i].operation == #[trigger] gs[j].operation by {
                if i == 0 {
                    assert(r[0].operation == gs[0].operation);
                } else {
                    assert(r[i] == t[i - 1]);
                    if t[i - 1].operation != operation {
                        let k = choose|k: int|
                            0 <= k < rest.len() && t[i - 1].operation
                                == #[trigger] rest[k].operation;
                        assert(rest[k] == gs[k + 1]);
                    }
                }
            }
        }
    }
}

/// No operation has two groups.
pub open spec fn operations_once(gs: Seq<GroupView>) -> bool {
    forall|i: int, j: int|
        0 <= i < j < gs.len() ==> #[trigger] gs[i].operation != #[trigger] gs[j].operation
}

/// A waiter makes one SDK call for each distinct operation that its services poll.
pub proof fn waiter_operations_are_distinct(refs: Seq<RefView>, services: Seq<Seq<char>>)
    ensures
        operations_once(by_operation(refs, services)),
    decreases refs.len(),
{
    if refs.len() > 0 {
        waiter_operations_are_distinct(refs.drop_last(), services);
        if services.contains(refs.last().service_name) {
            lemma_with_service_once(
                by_operation(refs.drop_last(), services),
                camel_case(refs.last().operation_name),
                refs.last().service_name,
            );
        }
    }
}

} // verus!
