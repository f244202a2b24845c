//! From the changes of a plan to the SDK calls behind them.

use vstd::prelude::*;

use crate::library_model::{OperationView, PatternView, SdkOperationMapping};
use crate::order::{distinct, distinct_items, views};
use crate::sdk::{call_views, SdkCallView, SdkMethodCall};
use crate::terraform::crud_map::{
    entry_of, some_of, text_ref, CrudMap, CrudSlot, CrudSlots, EntryView, ResourceEntry,
};
use crate::terraform::model_index::{operations_for, ModelIndex};
use crate::terraform::plan::{
    planned_of, planned_resources, PlannedResource, PlannedView, RawResourceChange,
};
use crate::terraform::symbols::{handler_key, symbol_key};
use crate::text::{same, texts};

verus! {

/// The operations behind the function with the symbol. A function that the model does not have has
/// none.
pub open spec fn symbol_operations(
    patterns: Seq<PatternView>,
    symbol: Seq<char>,
) -> Seq<OperationView> {
    match symbol_key(symbol) {
        Some(key) => match operations_for(patterns, key) {
            Some(v) => v,
            None => Seq::empty(),
        },
        None => Seq::empty(),
    }
}

/// The operations behind the functions, one behind the other.
pub open spec fn symbols_operations(
    patterns: Seq<PatternView>,
    symbols: Seq<Seq<char>>,
) -> Seq<OperationView>
    decreases symbols.len(),
{
    if symbols.len() == 0 {
        Seq::empty()
    } else {
        symbols_operations(patterns, symbols.drop_last()) + symbol_operations(
            patterns,
            symbols.last(),
        )
    }
}

/// The symbol if the condition holds.
pub open spec fn symbol_if(condition: bool, symbol: Option<Seq<char>>) -> Seq<Seq<char>> {
    if condition {
        some_of(symbol)
    } else {
        Seq::empty()
    }
}

/// Whether the steps write tags: creating and updating do.
pub open spec fn writes_tags(slots: CrudSlots) -> bool {
    slots.create || slots.update
}

/// Whether the steps read tags: reading does, and so does what writes them.
pub open spec fn reads_tags(slots: CrudSlots) -> bool {
    writes_tags(slots) || slots.read
}

/// The functions that a change of a resource calls: those of its steps, and those that read and
/// write its tags around them.
pub open spec fn exercised(entry: EntryView, slots: CrudSlots) -> Seq<Seq<char>> {
    symbol_if(slots.create, entry.create) + symbol_if(slots.read, entry.read) + symbol_if(
        slots.update,
        entry.update,
    ) + symbol_if(slots.delete, entry.delete) + symbol_if(reads_tags(slots), entry.list_tags)
        + symbol_if(writes_tags(slots), entry.update_tags)
}

/// The operations behind a change. A resource of a type that the map does not have has none.
pub open spec fn resource_operations(
    crud: Seq<EntryView>,
    patterns: Seq<PatternView>,
    r: PlannedView,
) -> Seq<OperationView> {
    match entry_of(crud, r.resource_type) {
        Some(entry) => symbols_operations(patterns, exercised(entry, r.slots)),
        None => Seq::empty(),
    }
}

/// The operations behind the changes, one behind the other.
pub open spec fn plan_operations(
    crud: Seq<EntryView>,
    patterns: Seq<PatternView>,
    rs: Seq<PlannedView>,
) -> Seq<OperationView>
    decreases rs.len(),
{
    if rs.len() == 0 {
        Seq::empty()
    } else {
        plan_operations(crud, patterns, rs.drop_last()) + resource_operations(
            crud,
            patterns,
            rs.last(),
        )
    }
}

/// The call of an operation.
pub open spec fn call_of(op: OperationView) -> SdkCallView {
    SdkCallView { name: op.operation, possible_services: seq![op.service], metadata: None }
}

pub open spec fn calls_of(ops: Seq<OperationView>) -> Seq<SdkCallView> {
    ops.map_values(|op: OperationView| call_of(op))
}

/// The calls behind the changes, each once, in the order in which they occur first.
pub open spec fn plan_calls(
    crud: Seq<EntryView>,
    patterns: Seq<PatternView>,
    rs: Seq<PlannedView>,
) -> Seq<SdkCallView> {
    calls_of(distinct(plan_operations(crud, patterns, rs)))
}

/// How a resource is named in a warning.
pub open spec fn resource_label(r: PlannedView) -> Seq<char> {
    "Resource '"@ + r.address + "' ("@ + r.resource_type + ")"@
}

/// The warning for a resource behind which no operation was found.
pub open spec fn resource_warning(
    crud: Seq<EntryView>,
    patterns: Seq<PatternView>,
    r: PlannedView,
) -> Option<Seq<char>> {
    if entry_of(crud, r.resource_type) is None {
        Some(
            resource_label(r)
                + " has no entry in the Terraform CRUD map; emitting no actions for it"@,
        )
    } else if resource_operations(crud, patterns, r).len() == 0 {
        Some(
            resource_label(r)
                + " is in the CRUD map but no handler resolved to any modeled SDK operations; emitting no actions for it"@,
        )
    } else {
        None
    }
}

/// The warnings for the resources, in their order.
pub open spec fn plan_warnings(
    crud: Seq<EntryView>,
    patterns: Seq<PatternView>,
    rs: Seq<PlannedView>,
) -> Seq<Seq<char>>
    decreases rs.len(),
{
    if rs.len() == 0 {
        Seq::empty()
    } else {
        plan_warnings(crud, patterns, rs.drop_last()) + some_of(
            resource_warning(crud, patterns, rs.last()),
        )
    }
}

/// The calls behind a plan, and what could not be mapped.
#[derive(Debug, PartialEq, Eq)]
pub struct MappedPlan {
    pub calls: Vec<SdkMethodCall>,
    pub warnings: Vec<String>,
}

fn contains_operation(v: &Vec<SdkOperationMapping>, op: &SdkOperationMapping) -> (r: bool)
    ensures
        r == views(v@).contains(op@),
{
    let ghost s = views(v@);
    let mut i: usize = 0;
    while i < v.len()
        invariant
            i <= v@.len(),
            s == views(v@),
            forall|j: int| 0 <= j < i ==> s[j] != op@,
        decreases v@.len() - i,
    {
        assert(s[i as int] == v@[i as int]@);
        if same(v[i].service.as_str(), op.service.as_str()) && same(
            v[i].operation.as_str(),
            op.operation.as_str(),
        ) {
            return true;
        }
        i = i + 1;
    }
    false
}

/// Adds the operations behind the function to those of `ops`, which are the distinct ones of
/// `base`. Tells whether there were any.
fn emit_symbol(
    model: &ModelIndex,
    symbol: &str,
    ops: &mut Vec<SdkOperationMapping>,
    base: Ghost<Seq<OperationView>>,
) -> (r: bool)
    requires
        views(old(ops)@) == distinct(base@),
    ensures
        views(final(ops)@) == distinct(base@ + symbol_operations(model@.patterns, symbol@)),
        r == (symbol_operations(model@.patterns, symbol@).len() > 0),
{
    let ghost none = Seq::<OperationView>::empty();
    assert(base@ + none =~= base@);
    let key = match handler_key(symbol) {
        Some(k) => k,
        None => {
            return false;
        },
    };
    let found = match model.operations(&key) {
        Some(v) => v,
        None => {
            return false;
        },
    };
    let ghost own = views(found@);
    let mut i: usize = 0;
    assert(own.subrange(0, 0) =~= none);
    while i < found.len()
        invariant
            i <= found@.len(),
            own == views(found@),
            views(ops@) == distinct(base@ + own.subrange(0, i as int)),
        decreases found@.len() - i,
    {
        let ghost before = views(ops@);
        proof {
            let w = base@ + own.subrange(0, i + 1);
            assert(w.drop_last() =~= base@ + own.subrange(0, i as int));
            assert(w.last() == found@[i as int]@);
        }
        if !contains_operation(ops, &found[i]) {
            ops.push(found[i].clone());
            assert(views(ops@) =~= before.push(found@[i as int]@));
        }
        i = i + 1;
    }
    assert(own.subrange(0, own.len() as int) =~= own);
    found.len() > 0
}

proof fn lemma_symbols_push(
    patterns: Seq<PatternView>,
    symbols: Seq<Seq<char>>,
    symbol: Seq<char>,
)
    ensures
        symbols_operations(patterns, symbols + seq![symbol]) == symbols_operations(
            patterns,
            symbols,
        ) + symbol_operations(patterns, symbol),
{
    let s = symbols + seq![symbol];
    assert(s.drop_last() =~= symbols);
    assert(s.last() == symbol);
}

/// As `emit_symbol`, for a symbol that counts only under a condition. `done` are the symbols that
/// came before it.
fn emit_if(
    model: &ModelIndex,
    condition: bool,
    symbol: Option<&String>,
    ops: &mut Vec<SdkOperationMapping>,
    base: Ghost<Seq<OperationView>>,
    done: Ghost<Seq<Seq<char>>>,
) -> (r: bool)
    requires
        views(old(ops)@) == distinct(base@ + symbols_operations(model@.patterns, done@)),
    ensures
        views(final(ops)@) == distinct(
            base@ + symbols_operations(
                model@.patterns,
                done@ + symbol_if(condition, text_ref(symbol)),
            ),
        ),
        symbols_operations(model@.patterns, done@ + symbol_if(condition, text_ref(symbol))).len()
            == symbols_operations(model@.patterns, done@).len() + (if condition && symbol is Some {
            symbol_operations(model@.patterns, symbol->0@).len()
        } else {
            0
        }),
        r == (condition && symbol is Some && symbol_operations(
            model@.patterns,
            symbol->0@,
        ).len() > 0),
{
    let ghost p = model@.patterns;
    assert(done@ + Seq::<Seq<char>>::empty() =~= done@);
    if !condition {
        return false;
    }
    match symbol {
        Some(s) => {
            let ghost so_far = base@ + symbols_operations(p, done@);
            proof {
                lemma_symbols_push(p, done@, s@);
                assert(so_far + symbol_operations(p, s@) =~= base@ + symbols_operations(
                    p,
                    done@ + seq![s@],
                ));
            }
            emit_symbol(model, s.as_str(), ops, Ghost(so_far))
        },
        None => false,
    }
}

/// Adds the operations behind a change. Tells whether there were any.
fn emit_resource(
    model: &ModelIndex,
    entry: &ResourceEntry,
    slots: CrudSlots,
    ops: &mut Vec<SdkOperationMapping>,
    base: Ghost<Seq<OperationView>>,
) -> (r: bool)
    requires
        views(old(ops)@) == distinct(base@),
    ensures
        views(final(ops)@) == distinct(
            base@ + symbols_operations(model@.patterns, exercised(entry@, slots)),
        ),
        r == (symbols_operations(model@.patterns, exercised(entry@, slots)).len() > 0),
{
    let ghost s0 = Seq::<Seq<char>>::empty();
    let ghost s1 = s0 + symbol_if(slots.create, entry@.create);
    let ghost s2 = s1 + symbol_if(slots.read, entry@.read);
    let ghost s3 = s2 + symbol_if(slots.update, entry@.update);
    let ghost s4 = s3 + symbol_if(slots.delete, entry@.delete);
    let ghost s5 = s4 + symbol_if(reads_tags(slots), entry@.list_tags);
    let ghost s6 = s5 + symbol_if(writes_tags(slots), entry@.update_tags);
    proof {
        assert(base@ + symbols_operations(model@.patterns, s0) =~= base@);
        assert(s6 =~= exercised(entry@, slots));
    }
    let writes = slots.contains(CrudSlot::Create) || slots.contains(CrudSlot::Update);
    let reads = writes || slots.contains(CrudSlot::Read);
    let a = emit_if(
        model,
        slots.contains(CrudSlot::Create),
        entry.handler(CrudSlot::Create),
        ops,
        base,
        Ghost(s0),
    );
    let b = emit_if(
        model,
        slots.contains(CrudSlot::Read),
        entry.handler(CrudSlot::Read),
        ops,
        base,
        Ghost(s1),
    );
    let c = emit_if(
        model,
        slots.contains(CrudSlot::Update),
        entry.handler(CrudSlot::Update),
        ops,
        base,
        Ghost(s2),
    );
    let d = emit_if(
        model,
        slots.contains(CrudSlot::Delete),
        entry.handler(CrudSlot::Delete),
        ops,
        base,
        Ghost(s3),
    );
    let e = emit_if(model, reads, entry.list_tags_symbol(), ops, base, Ghost(s4));
    let f = emit_if(model, writes, entry.update_tags_symbol(), ops, base, Ghost(s5));
    a || b || c || d || e || f
}

fn warn(resource: &PlannedResource, why: &str) -> (r: String)
    ensures
        r@ == resource_label(resource@) + why@,
{
    let mut r = "Resource '".to_string();
    r.append(resource.address.as_str());
    r.append("' (");
    r.append(resource.resource_type.as_str());
    r.append(")");
    r.append(why);
    r
}

fn to_calls(ops: &Vec<SdkOperationMapping>) -> (r: Vec<SdkMethodCall>)
    ensures
        call_views(r@) == calls_of(views(ops@)),
{
    let ghost s = views(ops@);
    let mut calls: Vec<SdkMethodCall> = Vec::new();
    let mut i: usize = 0;
    assert(call_views(calls@) =~= calls_of(s.subrange(0, 0)));
    while i < ops.len()
        invariant
            i <= ops@.len(),
            s == views(ops@),
            call_views(calls@) == calls_of(s.subrange(0, i as int)),
        decreases ops@.len() - i,
    {
        let ghost before = call_views(calls@);
        let mut possible_services: Vec<String> = Vec::new();
        possible_services.push(ops[i].service.clone());
        let call = SdkMethodCall {
            name: ops[i].operation.clone(),
            possible_services,
            metadata: None,
        };
        proof {
            assert(s[i as int] == ops@[i as int]@);
            assert(texts(possible_services@) =~= seq![s[i as int].service]);
            assert(call@ == call_of(s[i as int]));
        }
        calls.push(call);
        proof {
            assert(call_views(calls@) =~= before.push(call_of(s[i as int])));
            assert(calls_of(s.subrange(0, i + 1)) =~= before.push(call_of(s[i as int])));
        }
        i = i + 1;
    }
    assert(s.subrange(0, s.len() as int) =~= s);
    calls
}

/// The calls behind the changes. Where nothing is found behind a change, there is a warning in
/// place of calls.
pub fn map_plan(
    resources: &Vec<PlannedResource>,
    crud_map: &CrudMap,
    model: &ModelIndex,
) -> (r: MappedPlan)
    ensures
        call_views(r.calls@) == plan_calls(crud_map@, model@.patterns, views(resources@)),
        texts(r.warnings@) == plan_warnings(crud_map@, model@.patterns, views(resources@)),
{
    let ghost s = views(resources@);
    let ghost crud = crud_map@;
    let ghost p = model@.patterns;
    let mut ops: Vec<SdkOperationMapping> = Vec::new();
    let mut warnings: Vec<String> = Vec::new();
    let mut i: usize = 0;
    proof {
        assert(s.subrange(0, 0).len() == 0);
        assert(views(ops@) =~= Seq::<OperationView>::empty());
        assert(distinct(Seq::<OperationView>::empty()) =~= Seq::<OperationView>::empty());
        assert(texts(warnings@) =~= Seq::<Seq<char>>::empty());
    }
    while i < resources.len()
        invariant
            i <= resources@.len(),
            s == views(resources@),
            crud == crud_map@,
            p == model@.patterns,
            views(ops@) == distinct(plan_operations(crud, p, s.subrange(0, i as int))),
            texts(warnings@) == plan_warnings(crud, p, s.subrange(0, i as int)),
        decreases resources@.len() - i,
    {
        let ghost t = s.subrange(0, i as int);
        let ghost u = s.subrange(0, i + 1);
        let ghost base = plan_operations(crud, p, t);
        let ghost before = texts(warnings@);
        let resource = &resources[i];
        proof {
            assert(u.drop_last() =~= t);
            assert(u.last() == resource@);
            assert(base + Seq::<OperationView>::empty() =~= base);
            assert(before + Seq::<Seq<char>>::empty() =~= before);
        }
        match crud_map.get(resource.resource_type.as_str()) {
            Some(entry) => {
                let emitted = emit_resource(model, entry, resource.slots, &mut ops, Ghost(base));
                if !emitted {
                    let w = warn(
                        resource,
                        " is in the CRUD map but no handler resolved to any modeled SDK operations; emitting no actions for it",
                    );
                    let ghost text = w@;
                    warnings.push(w);
                    assert(texts(warnings@) =~= before + seq![text]);
                }
            },
            None => {
                let w = warn(
                    resource,
                    " has no entry in the Terraform CRUD map; emitting no actions for it",
                );
                let ghost text = w@;
                warnings.push(w);
                assert(texts(warnings@) =~= before + seq![text]);
            },
        }
        i = i + 1;
    }
    assert(s.subrange(0, s.len() as int) =~= s);
    MappedPlan { calls: to_calls(&ops), warnings }
}

/// The changes of all plans, one plan behind the other.
pub open spec fn all_planned(plans: Seq<Vec<RawResourceChange>>) -> Seq<PlannedView>
    decreases plans.len(),
{
    if plans.len() == 0 {
        Seq::empty()
    } else {
        all_planned(plans.drop_last()) + planned_of(plans.last()@)
    }
}

/// The calls behind the changes of several plans, and the changes themselves.
pub fn plan_to_sdk_calls(
    plans: &Vec<Vec<RawResourceChange>>,
    crud_map: &CrudMap,
    model: &ModelIndex,
) -> (r: (MappedPlan, Vec<PlannedResource>))
    ensures
        views(r.1@) == all_planned(plans@),
        call_views(r.0.calls@) == plan_calls(crud_map@, model@.patterns, all_planned(plans@)),
        texts(r.0.warnings@) == plan_warnings(
            crud_map@,
            model@.patterns,
            all_planned(plans@),
        ),
{
    let ghost s = plans@;
    let mut resources: Vec<PlannedResource> = Vec::new();
    let mut i: usize = 0;
    assert(s.subrange(0, 0).len() == 0);
    assert(views(resources@) =~= Seq::<PlannedView>::empty());
    while i < plans.len()
        invariant
            i <= plans@.len(),
            s == plans@,
            views(resources@) == all_planned(s.subrange(0, i as int)),
        decreases plans@.len() - i,
    {
        let ghost u = s.subrange(0, i + 1);
        let ghost before = views(resources@);
        assert(u.drop_last() =~= s.subrange(0, i as int));
        assert(u.last() == plans@[i as int]);
        let mut more = planned_resources(&plans[i]);
        let ghost m = views(more@);
        resources.append(&mut more);
        assert(views(resources@) =~= before + m);
        i = i + 1;
    }
    assert(s.subrange(0, s.len() as int) =~= s);
    let mapped = map_plan(&resources, crud_map, model);
    (mapped, resources)
}

proof fn lemma_resource_in_plan(
    crud: Seq<EntryView>,
    patterns: Seq<PatternView>,
    rs: Seq<PlannedView>,
    i: int,
    op: OperationView,
)
    requires
        0 <= i < rs.len(),
        resource_operations(crud, patterns, rs[i]).contains(op),
    ensures
        plan_operations(crud, patterns, rs).contains(op),
    decreases rs.len(),
{
    let t = rs.drop_last();
    let before = plan_operations(crud, patterns, t);
    let own = resource_operations(crud, patterns, rs.last());
    let all = plan_operations(crud, patterns, rs);
    if i < t.len() {
        assert(t[i] == rs[i]);
        lemma_resource_in_plan(crud, patterns, t, i, op);
        let k = choose|k: int| 0 <= k < before.len() && before[k] == op;
        assert(all[k] == op);
    } else {
        let k = choose|k: int| 0 <= k < own.len() && own[k] == op;
        assert(all[before.len() + k] == op);
    }
}

proof fn lemma_warning_in_plan(
    crud: Seq<EntryView>,
    patterns: Seq<PatternView>,
    rs: Seq<PlannedView>,
    i: int,
)
    requires
        0 <= i < rs.len(),
        resource_warning(crud, patterns, rs[i]) is Some,
    ensures
        plan_warnings(crud, patterns, rs).contains(resource_warning(crud, patterns, rs[i])->0),
    decreases rs.len(),
{
    let w = resource_warning(crud, patterns, rs[i])->0;
    let t = rs.drop_last();
    let before = plan_warnings(crud, patterns, t);
    let all = plan_warnings(crud, patterns, rs);
    if i < t.len() {
        assert(t[i] == rs[i]);
        lemma_warning_in_plan(crud, patterns, t, i);
        let k = choose|k: int| 0 <= k < before.len() && before[k] == w;
        assert(all[k] == w);
    } else {
        assert(all[before.len() as int] == w);
    }
}

/// No change is passed over in silence: either there is a warning that names it, or there are
/// operations behind it, and the calls hold them all.
pub proof fn no_resource_is_passed_over(
    crud: Seq<EntryView>,
    patterns: Seq<PatternView>,
    rs: Seq<PlannedView>,
    i: int,
)
    requires
        0 <= i < rs.len(),
    ensures
        match resource_warning(crud, patterns, rs[i]) {
            Some(w) => plan_warnings(crud, patterns, rs).contains(w),
            None => resource_operations(crud, patterns, rs[i]).len() > 0 && forall|op: OperationView|
                #[trigger] resource_operations(crud, patterns, rs[i]).contains(op) ==> plan_calls(
                    crud,
                    patterns,
                    rs,
                ).contains(call_of(op)),
        },
{
    if resource_warning(crud, patterns, rs[i]) is Some {
        lemma_warning_in_plan(crud, patterns, rs, i);
    } else {
        let ops = plan_operations(crud, patterns, rs);
        let d = distinct(ops);
        distinct_items(ops);
        assert forall|op: OperationView| #[trigger]
            resource_operations(crud, patterns, rs[i]).contains(op) implies plan_calls(
            crud,
            patterns,
            rs,
        ).contains(call_of(op)) by {
            lemma_resource_in_plan(crud, patterns, rs, i, op);
            assert(ops.to_set().contains(op));
            assert(d.to_set().contains(op));
            let k = choose|k: int| 0 <= k < d.len() && d[k] == op;
            assert(calls_of(d)[k] == call_of(op));
        }
    }
}

/// No call occurs twice.
pub proof fn calls_are_distinct(
    crud: Seq<EntryView>,
    patterns: Seq<PatternView>,
    rs: Seq<PlannedView>,
)
    ensures
        plan_calls(crud, patterns, rs).no_duplicates(),
{
    let d = distinct(plan_operations(crud, patterns, rs));
    distinct_items(plan_operations(crud, patterns, rs));
    let c = calls_of(d);
    assert forall|i: int, j: int| 0 <= i < c.len() && 0 <= j < c.len() && i != j implies c[i]
        != c[j] by {
        assert(d[i] != d[j]);
        assert(c[i].possible_services[0] == d[i].service);
        assert(c[j].possible_services[0] == d[j].service);
    }
}

proof fn lemma_plan_concat(
    crud: Seq<EntryView>,
    patterns: Seq<PatternView>,
    a: Seq<PlannedView>,
    b: Seq<PlannedView>,
)
    ensures
        plan_operations(crud, patterns, a + b) == plan_operations(crud, patterns, a)
            + plan_operations(crud, patterns, b),
    decreases b.len(),
{
    let x = plan_operations(crud, patterns, a);
    if b.len() == 0 {
        assert(a + b =~= a);
        assert(x + Seq::<OperationView>::empty() =~= x);
    } else {
        let t = b.drop_last();
        lemma_plan_concat(crud, patterns, a, t);
        assert((a + b).drop_last() =~= a + t);
        assert((a + b).last() == b.last());
        let own = resource_operations(crud, patterns, b.last());
        assert(x + plan_operations(crud, patterns, t) + own =~= x + (plan_operations(
            crud,
            patterns,
            t,
        ) + own));
    }
}

proof fn lemma_distinct_absorbs(x: Seq<OperationView>, y: Seq<OperationView>)
    requires
        forall|i: int| 0 <= i < y.len() ==> x.contains(#[trigger] y[i]),
    ensures
        distinct(x + y) == distinct(x),
    decreases y.len(),
{
    if y.len() == 0 {
        assert(x + y =~= x);
    } else {
        let t = y.drop_last();
        assert forall|i: int| 0 <= i < t.len() implies x.contains(#[trigger] t[i]) by {
            assert(t[i] == y[i]);
        }
        lemma_distinct_absorbs(x, t);
        assert((x + y).drop_last() =~= x + t);
        assert((x + y).last() == y[y.len() - 1]);
        distinct_items(x);
        assert(x.contains(y[y.len() - 1]));
        assert(x.to_set().contains(y.last()));
        assert(distinct(x).to_set().contains(y.last()));
    }
}

proof fn lemma_plan_from_resources(
    crud: Seq<EntryView>,
    patterns: Seq<PatternView>,
    rs: Seq<PlannedView>,
    op: OperationView,
)
    requires
        plan_operations(crud, patterns, rs).contains(op),
    ensures
        exists|i: int|
            0 <= i < rs.len() && resource_operations(crud, patterns, #[trigger] rs[i]).contains(op),
    decreases rs.len(),
{
    if rs.len() > 0 {
        let t = rs.drop_last();
        let before = plan_operations(crud, patterns, t);
        let own = resource_operations(crud, patterns, rs.last());
        let all = plan_operations(crud, patterns, rs);
        let k = choose|k: int| 0 <= k < all.len() && all[k] == op;
        if k < before.len() {
            assert(before[k] == op);
            lemma_plan_from_resources(crud, patterns, t, op);
            let i = choose|i: int|
                0 <= i < t.len() && resource_operations(crud, patterns, #[trigger] t[i]).contains(
                    op,
                );
            assert(rs[i] == t[i]);
        } else {
            assert(own[k - before.len()] == op);
            assert(rs[rs.len() - 1] == rs.last());
        }
    }
}

/// Plans add up: changes that have occurred before add no call, so that a resource in several plans
/// counts once.
pub proof fn repeated_resources_add_no_call(
    crud: Seq<EntryView>,
    patterns: Seq<PatternView>,
    a: Seq<PlannedView>,
    b: Seq<PlannedView>,
)
    requires
        forall|i: int| 0 <= i < b.len() ==> a.contains(#[trigger] b[i]),
    ensures
        plan_calls(crud, patterns, a + b) == plan_calls(crud, patterns, a),
{
    let x = plan_operations(crud, patterns, a);
    let y = plan_operations(crud, patterns, b);
    lemma_plan_concat(crud, patterns, a, b);
    assert forall|i: int| 0 <= i < y.len() implies x.contains(#[trigger] y[i]) by {
        assert(y.contains(y[i]));
        lemma_plan_from_resources(crud, patterns, b, y[i]);
        let k = choose|k: int|
            0 <= k < b.len() && resource_operations(crud, patterns, #[trigger] b[k]).contains(y[i]);
        assert(a.contains(b[k]));
        let m = choose|m: int| 0 <= m < a.len() && a[m] == b[k];
        lemma_resource_in_plan(crud, patterns, a, m, y[i]);
    }
    lemma_distinct_absorbs(x, y);
}

/// Deleting a resource alone neither reads nor writes its tags beyond the read that every change
/// has: the functions that write tags are called only where a resource is created or updated.
pub proof fn tags_are_written_only_on_create_or_update(entry: EntryView, slots: CrudSlots)
    requires
        !slots.create,
        !slots.update,
    ensures
        exercised(entry, slots) == symbol_if(slots.read, entry.read) + symbol_if(
            slots.delete,
            entry.delete,
        ) + symbol_if(slots.read, entry.list_tags),
{
    assert(exercised(entry, slots) =~= symbol_if(slots.read, entry.read) + symbol_if(
        slots.delete,
        entry.delete,
    ) + symbol_if(slots.read, entry.list_tags));
}

} // verus!
