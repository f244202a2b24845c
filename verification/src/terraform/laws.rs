//! What holds of the SDK calls behind Terraform plans.

use vstd::prelude::*;
use vstd::seq_lib::lemma_seq_concat_contains_all_elements;

use crate::go::{entry_point, receiver_split};
use crate::json::{json_field, JsonValue};
use crate::library_model::{KeyView, OperationView, PatternView};
use crate::order::{distinct, distinct_items};
use crate::sdk::SdkCallView;
use crate::terraform::crud_map::{entry_of, some_of, CrudSlots, EntryView};
use crate::terraform::mapper::{
    all_planned, calls_of, exercised, plan_calls, plan_operations, plan_warnings,
    resource_operations, resource_warning, symbol_operations, symbols_operations,
};
use crate::terraform::model_index::operations_for;
use crate::terraform::plan::{
    fields_make_plan, is_planned, name_prefix_of, planned, planned_of, slots_of, PlannedView,
    RawResourceChange,
};
use crate::terraform::symbols::symbol_key;
use crate::text::texts;
use crate::text_laws::{
    characters_are_found_first, prefixes_stand_before_the_rest, texts_are_found_first,
    texts_without_prefix,
};

verus! {

/// A change calls the function of each of its steps, reads tags if it reads, creates or updates,
/// writes them if it creates or updates, and calls nothing else.
pub proof fn every_step_calls_its_function(entry: EntryView, slots: CrudSlots, f: Seq<char>)
    ensures
        exercised(entry, slots).contains(f) <==> {
            ||| slots.create && entry.create == Some(f)
            ||| slots.read && entry.read == Some(f)
            ||| slots.update && entry.update == Some(f)
            ||| slots.delete && entry.delete == Some(f)
            ||| (slots.create || slots.read || slots.update) && entry.list_tags == Some(f)
            ||| (slots.create || slots.update) && entry.update_tags == Some(f)
        },
{
    broadcast use lemma_seq_concat_contains_all_elements;

    lemma_some_of(entry.create, f);
    lemma_some_of(entry.read, f);
    lemma_some_of(entry.update, f);
    lemma_some_of(entry.delete, f);
    lemma_some_of(entry.list_tags, f);
    lemma_some_of(entry.update_tags, f);
}

proof fn lemma_some_of(o: Option<Seq<char>>, f: Seq<char>)
    ensures
        some_of(o).contains(f) == (o == Some(f)),
{
    if o is Some {
        assert(some_of(o)[0] == o->0);
    }
}

/// An entry lists the functions of its steps and of its tags, and no others.
pub proof fn entries_list_their_functions(entry: EntryView, f: Seq<char>)
    ensures
        entry.symbols().contains(f) <==> {
            ||| entry.create == Some(f)
            ||| entry.read == Some(f)
            ||| entry.update == Some(f)
            ||| entry.delete == Some(f)
            ||| entry.list_tags == Some(f)
            ||| entry.update_tags == Some(f)
        },
{
    broadcast use lemma_seq_concat_contains_all_elements;

    lemma_some_of(entry.create, f);
    lemma_some_of(entry.read, f);
    lemma_some_of(entry.update, f);
    lemma_some_of(entry.delete, f);
    lemma_some_of(entry.list_tags, f);
    lemma_some_of(entry.update_tags, f);
}

/// The entry of a type is the last one that has the type.
pub proof fn last_entry_counts(entries: Seq<EntryView>, resource_type: Seq<char>, i: int)
    requires
        -1 <= i < entries.len(),
        forall|j: int| i < j < entries.len() ==> (#[trigger] entries[j]).resource_type != resource_type,
        i >= 0 ==> entries[i].resource_type == resource_type,
    ensures
        i >= 0 ==> entry_of(entries, resource_type) == Some(entries[i]),
        i < 0 ==> entry_of(entries, resource_type) is None,
    decreases entries.len(),
{
    if entries.len() > 0 && i < entries.len() - 1 {
        let t = entries.drop_last();
        assert(entries[entries.len() - 1].resource_type != resource_type);
        assert forall|j: int| i < j < t.len() implies (#[trigger] t[j]).resource_type
            != resource_type by {
            assert(t[j] == entries[j]);
        }
        last_entry_counts(t, resource_type, i);
    }
}

/// Whether the pattern is that of the function with the key.
spec fn has_key(p: PatternView, key: KeyView) -> bool {
    p.module == key.module && p.class_name == key.class_name && p.function_name
        == key.function_name
}

/// The operations of a function are those of all patterns with its module, its class and its name;
/// a function without a pattern is not in the model.
pub proof fn operations_come_from_patterns(
    patterns: Seq<PatternView>,
    key: KeyView,
    op: OperationView,
)
    ensures
        operations_for(patterns, key) is Some <==> exists|i: int|
            0 <= i < patterns.len() && (#[trigger] patterns[i]).module == key.module
                && patterns[i].class_name == key.class_name && patterns[i].function_name
                == key.function_name,
        operations_for(patterns, key) is Some ==> (operations_for(patterns, key)->0.contains(op)
            <==> exists|i: int|
            0 <= i < patterns.len() && (#[trigger] patterns[i]).module == key.module
                && patterns[i].class_name == key.class_name && patterns[i].function_name
                == key.function_name && patterns[i].sdk_operations.contains(op)),
    decreases patterns.len(),
{
    broadcast use lemma_seq_concat_contains_all_elements;

    if patterns.len() > 0 {
        let t = patterns.drop_last();
        operations_come_from_patterns(t, key, op);
        let last = patterns.last();
        assert(patterns[patterns.len() - 1] == last);
        assert forall|i: int| 0 <= i < t.len() implies t[i] == patterns[i] by {}
        if exists|i: int| 0 <= i < t.len() && has_key(#[trigger] t[i], key) {
            let i = choose|i: int| 0 <= i < t.len() && has_key(#[trigger] t[i], key);
            assert(has_key(patterns[i], key));
        }
        if exists|i: int|
            0 <= i < t.len() && has_key(#[trigger] t[i], key) && t[i].sdk_operations.contains(op) {
            let i = choose|i: int|
                0 <= i < t.len() && has_key(#[trigger] t[i], key) && t[i].sdk_operations.contains(
                    op,
                );
            assert(has_key(patterns[i], key) && patterns[i].sdk_operations.contains(op));
        }
    }
}

/// The patterns of a function are found one by one, in their order.
pub proof fn patterns_are_found_one_by_one(
    a: Seq<PatternView>,
    p: PatternView,
    key: KeyView,
)
    ensures
        p.module == key.module && p.class_name == key.class_name && p.function_name
            == key.function_name ==> operations_for(a.push(p), key) == Some(
            match operations_for(a, key) {
                Some(v) => v + p.sdk_operations,
                None => p.sdk_operations,
            },
        ),
        p.module != key.module || p.class_name != key.class_name || p.function_name
            != key.function_name ==> operations_for(a.push(p), key) == operations_for(a, key),
{
    assert(a.push(p).drop_last() =~= a);
}

/// The symbol of a handler names the package behind `/internal/service/` and, behind the dot, the
/// function or method.
pub proof fn handlers_are_found_by_symbol(
    path: Seq<char>,
    package: Seq<char>,
    qualifier: Seq<char>,
)
    requires
        forall|i: int|
            0 <= i < path.len() && i + "/internal/service/"@.len() <= (path
                + "/internal/service/"@ + package + "."@ + qualifier).len() ==> #[trigger] (path
                + "/internal/service/"@ + package + "."@ + qualifier).subrange(
                i,
                i + "/internal/service/"@.len(),
            ) != "/internal/service/"@,
        package.len() > 0,
        !package.contains('.'),
        !package.contains('/'),
        entry_point(qualifier).len() > 0,
        qualifier.len() > 0,
    ensures
        symbol_key(path + "/internal/service/"@ + package + "."@ + qualifier) == Some(
            KeyView {
                module: package,
                class_name: receiver_split(entry_point(qualifier)).0,
                function_name: receiver_split(entry_point(qualifier)).1,
            },
        ),
{
    reveal_strlit(".");
    assert("."@ =~= seq!['.']);
    let marker = "/internal/service/"@;
    let s = path + marker + package + "."@ + qualifier;
    let n = path.len() as int;
    let rest = package + seq!['.'] + qualifier;
    texts_are_found_first(s, marker, 0);
    assert(s.subrange(n, n + marker.len()) =~= marker);
    assert(crate::text::find_text_from(s, marker, 0) == Some(n));
    assert(s.subrange(n + marker.len(), s.len() as int) =~= rest);
    characters_are_found_first(package, '.', qualifier);
    crate::text::lemma_find_from(rest, '/', 0);
    let slash = crate::text::find_from(rest, '/', 0);
    if slash < package.len() {
        assert(package[slash] == '/');
    }
    assert(rest.subrange(package.len() as int + 1, rest.len() as int) =~= qualifier);
    assert(rest.subrange(0, package.len() as int) =~= package);
}

/// A symbol without the marker is that of no handler.
pub proof fn other_symbols_have_no_handler(symbol: Seq<char>)
    requires
        forall|a: Seq<char>, b: Seq<char>| symbol != #[trigger] (a + "/internal/service/"@ + b),
    ensures
        symbol_key(symbol) is None,
{
    let marker = "/internal/service/"@;
    texts_are_found_first(symbol, marker, 0);
    if let Some(i) = crate::text::find_text_from(symbol, marker, 0) {
        let a = symbol.subrange(0, i);
        let b = symbol.subrange(i + marker.len(), symbol.len() as int);
        assert(symbol =~= a + symbol.subrange(i, i + marker.len()) + b);
        assert(symbol == a + marker + b);
    }
}

proof fn lemma_symbols_hold(
    patterns: Seq<PatternView>,
    symbols: Seq<Seq<char>>,
    op: OperationView,
)
    ensures
        symbols_operations(patterns, symbols).contains(op) <==> exists|k: int|
            0 <= k < symbols.len() && #[trigger] symbol_operations(patterns, symbols[k]).contains(op),
    decreases symbols.len(),
{
    broadcast use lemma_seq_concat_contains_all_elements;

    if symbols.len() > 0 {
        let t = symbols.drop_last();
        lemma_symbols_hold(patterns, t, op);
        assert(symbols[symbols.len() - 1] == symbols.last());
        if symbols_operations(patterns, t).contains(op) {
            let k = choose|k: int|
                0 <= k < t.len() && #[trigger] symbol_operations(patterns, t[k]).contains(op);
            assert(symbol_operations(patterns, symbols[k]).contains(op));
        }
        if symbol_operations(patterns, symbols.last()).contains(op) {
            assert(symbol_operations(patterns, symbols[symbols.len() - 1]).contains(op));
        }
        if exists|k: int|
            0 <= k < symbols.len() && #[trigger] symbol_operations(
                patterns,
                symbols[k],
            ).contains(op) {
            let k = choose|k: int|
                0 <= k < symbols.len() && #[trigger] symbol_operations(
                    patterns,
                    symbols[k],
                ).contains(op);
            if k < t.len() {
                assert(symbol_operations(patterns, t[k]).contains(op));
            }
        }
    }
}

/// The operations behind a change are those of the functions that it calls.
pub proof fn changes_need_the_operations_of_their_functions(
    crud: Seq<EntryView>,
    patterns: Seq<PatternView>,
    r: PlannedView,
    entry: EntryView,
    f: Seq<char>,
    key: KeyView,
    k: int,
    op: OperationView,
)
    requires
        entry_of(crud, r.resource_type) == Some(entry),
        exercised(entry, r.slots).contains(f),
        symbol_key(f) == Some(key),
        0 <= k < patterns.len(),
        patterns[k].module == key.module,
        patterns[k].class_name == key.class_name,
        patterns[k].function_name == key.function_name,
        patterns[k].sdk_operations.contains(op),
    ensures
        resource_operations(crud, patterns, r).contains(op),
{
    operations_come_from_patterns(patterns, key, op);
    let symbols = exercised(entry, r.slots);
    let j = choose|j: int| 0 <= j < symbols.len() && symbols[j] == f;
    assert(symbol_operations(patterns, symbols[j]).contains(op));
    lemma_symbols_hold(patterns, symbols, op);
}

/// Every operation behind the function of a step of a planned change is among the calls of the plan.
pub proof fn steps_of_planned_changes_are_called(
    crud: Seq<EntryView>,
    patterns: Seq<PatternView>,
    rs: Seq<PlannedView>,
    i: int,
    entry: EntryView,
    f: Seq<char>,
    key: KeyView,
    k: int,
    op: OperationView,
)
    requires
        0 <= i < rs.len(),
        entry_of(crud, rs[i].resource_type) == Some(entry),
        ({
            let slots = rs[i].slots;
            ||| slots.create && entry.create == Some(f)
            ||| slots.read && entry.read == Some(f)
            ||| slots.update && entry.update == Some(f)
            ||| slots.delete && entry.delete == Some(f)
            ||| (slots.create || slots.read || slots.update) && entry.list_tags == Some(f)
            ||| (slots.create || slots.update) && entry.update_tags == Some(f)
        }),
        symbol_key(f) == Some(key),
        0 <= k < patterns.len(),
        patterns[k].module == key.module,
        patterns[k].class_name == key.class_name,
        patterns[k].function_name == key.function_name,
        patterns[k].sdk_operations.contains(op),
    ensures
        plan_calls(crud, patterns, rs).contains(
            SdkCallView {
                name: op.operation,
                possible_services: seq![op.service],
                metadata: None,
            },
        ),
{
    every_step_calls_its_function(entry, rs[i].slots, f);
    changes_need_the_operations_of_their_functions(crud, patterns, rs[i], entry, f, key, k, op);
    lemma_plan_holds(crud, patterns, rs, op);
    lemma_calls_hold(crud, patterns, rs, op);
}

proof fn lemma_plan_holds(
    crud: Seq<EntryView>,
    patterns: Seq<PatternView>,
    rs: Seq<PlannedView>,
    op: OperationView,
)
    ensures
        plan_operations(crud, patterns, rs).contains(op) <==> exists|i: int|
            0 <= i < rs.len() && #[trigger] resource_operations(crud, patterns, rs[i]).contains(op),
    decreases rs.len(),
{
    broadcast use lemma_seq_concat_contains_all_elements;

    if rs.len() > 0 {
        let t = rs.drop_last();
        lemma_plan_holds(crud, patterns, t, op);
        assert(rs[rs.len() - 1] == rs.last());
        if plan_operations(crud, patterns, t).contains(op) {
            let k = choose|k: int|
                0 <= k < t.len() && #[trigger] resource_operations(crud, patterns, t[k]).contains(
                    op,
                );
            assert(resource_operations(crud, patterns, rs[k]).contains(op));
        }
        if resource_operations(crud, patterns, rs.last()).contains(op) {
            assert(resource_operations(crud, patterns, rs[rs.len() - 1]).contains(op));
        }
        if exists|k: int|
            0 <= k < rs.len() && #[trigger] resource_operations(crud, patterns, rs[k]).contains(
                op,
            ) {
            let k = choose|k: int|
                0 <= k < rs.len() && #[trigger] resource_operations(crud, patterns, rs[k]).contains(
                    op,
                );
            if k < t.len() {
                assert(resource_operations(crud, patterns, t[k]).contains(op));
            }
        }
    }
}

proof fn lemma_calls_hold(
    crud: Seq<EntryView>,
    patterns: Seq<PatternView>,
    rs: Seq<PlannedView>,
    op: OperationView,
)
    requires
        plan_operations(crud, patterns, rs).contains(op),
    ensures
        plan_calls(crud, patterns, rs).contains(
            SdkCallView {
                name: op.operation,
                possible_services: seq![op.service],
                metadata: None,
            },
        ),
{
    let ops = plan_operations(crud, patterns, rs);
    let d = distinct(ops);
    distinct_items(ops);
    assert(ops.to_set().contains(op));
    assert(d.to_set().contains(op));
    let k = choose|k: int| 0 <= k < d.len() && d[k] == op;
    assert(calls_of(d)[k] == (SdkCallView {
        name: op.operation,
        possible_services: seq![op.service],
        metadata: None,
    }));
}

/// Every call of a plan is that of an operation behind one of its changes.
pub proof fn calls_of_plans_come_from_changes(
    crud: Seq<EntryView>,
    patterns: Seq<PatternView>,
    rs: Seq<PlannedView>,
    n: int,
)
    requires
        0 <= n < plan_calls(crud, patterns, rs).len(),
    ensures
        plan_calls(crud, patterns, rs)[n].possible_services.len() == 1,
        plan_calls(crud, patterns, rs)[n].metadata is None,
        exists|i: int|
            0 <= i < rs.len() && #[trigger] resource_operations(crud, patterns, rs[i]).contains(
                OperationView {
                    service: plan_calls(crud, patterns, rs)[n].possible_services[0],
                    operation: plan_calls(crud, patterns, rs)[n].name,
                },
            ),
{
    let ops = plan_operations(crud, patterns, rs);
    let d = distinct(ops);
    distinct_items(ops);
    assert(d.to_set().contains(d[n]));
    assert(ops.to_set().contains(d[n]));
    lemma_plan_holds(crud, patterns, rs, d[n]);
    let c = plan_calls(crud, patterns, rs)[n];
    assert(c.possible_services =~= seq![d[n].service]);
    assert(OperationView { service: c.possible_services[0], operation: c.name } == d[n]);
}

/// Every operation behind a change is that of a function that the change calls.
pub proof fn changes_need_no_other_operations(
    crud: Seq<EntryView>,
    patterns: Seq<PatternView>,
    r: PlannedView,
    op: OperationView,
)
    requires
        resource_operations(crud, patterns, r).contains(op),
    ensures
        entry_of(crud, r.resource_type) is Some,
        exists|f: Seq<char>, k: int|
            #![trigger exercised(entry_of(crud, r.resource_type)->0, r.slots).contains(f), patterns[k]]
            exercised(entry_of(crud, r.resource_type)->0, r.slots).contains(f) && symbol_key(
                f,
            ) is Some && 0 <= k < patterns.len() && patterns[k].module == symbol_key(f)->0.module
                && patterns[k].class_name == symbol_key(f)->0.class_name
                && patterns[k].function_name == symbol_key(f)->0.function_name
                && patterns[k].sdk_operations.contains(op),
{
    let entry = entry_of(crud, r.resource_type)->0;
    let symbols = exercised(entry, r.slots);
    lemma_symbols_hold(patterns, symbols, op);
    let j = choose|j: int|
        0 <= j < symbols.len() && #[trigger] symbol_operations(patterns, symbols[j]).contains(op);
    let f = symbols[j];
    assert(symbols.contains(f));
    let key = symbol_key(f)->0;
    operations_come_from_patterns(patterns, key, op);
    let k = choose|k: int|
        0 <= k < patterns.len() && (#[trigger] patterns[k]).module == key.module
            && patterns[k].class_name == key.class_name && patterns[k].function_name
            == key.function_name && patterns[k].sdk_operations.contains(op);
    assert(exercised(entry_of(crud, r.resource_type)->0, r.slots).contains(f));
    assert(patterns[k].sdk_operations.contains(op));
}

/// A change takes the steps that its actions name, and always reads.
pub proof fn actions_name_their_steps(actions: Seq<Seq<char>>)
    ensures
        slots_of(actions).create <==> exists|i: int|
            0 <= i < actions.len() && #[trigger] actions[i] == "create"@,
        slots_of(actions).update <==> exists|i: int|
            0 <= i < actions.len() && #[trigger] actions[i] == "update"@,
        slots_of(actions).delete <==> exists|i: int|
            0 <= i < actions.len() && #[trigger] actions[i] == "delete"@,
        slots_of(actions).read,
{
}

/// Changes are planned one by one, in their order.
pub proof fn changes_are_planned_one_by_one(
    a: Seq<RawResourceChange>,
    c: RawResourceChange,
    b: Seq<RawResourceChange>,
)
    ensures
        planned_of(a + seq![c] + b) == planned_of(a) + (if is_planned(c) {
            seq![planned(c)]
        } else {
            Seq::empty()
        }) + planned_of(b),
    decreases b.len(),
{
    let v = a + seq![c] + b;
    let own = if is_planned(c) {
        seq![planned(c)]
    } else {
        Seq::empty()
    };
    if b.len() == 0 {
        assert(v.drop_last() =~= a);
        assert(v.last() == c);
        assert(planned_of(v) =~= planned_of(a) + own + planned_of(b));
    } else {
        let t = b.drop_last();
        changes_are_planned_one_by_one(a, c, t);
        assert(v.drop_last() =~= a + seq![c] + t);
        assert(v.last() == b.last());
        assert(planned_of(v) =~= planned_of(a) + own + planned_of(b));
    }
}

/// A change counts if its type starts with `aws_` and it is not that of a data source. It keeps its
/// address and its type.
pub proof fn managed_aws_resources_are_planned(c: RawResourceChange, rest: Seq<char>)
    ensures
        c.resource_type@ == "aws_"@ + rest && (c.mode is None || c.mode->0@ != "data"@)
            ==> is_planned(c),
        (forall|s: Seq<char>| c.resource_type@ != #[trigger] ("aws_"@ + s)) ==> !is_planned(c),
        c.mode is Some && c.mode->0@ == "data"@ ==> !is_planned(c),
        planned(c).address == c.address@,
        planned(c).resource_type == c.resource_type@,
        planned(c).slots == slots_of(texts(c.actions@)),
        planned(c).name_prefix == name_prefix_of(c.after),
{
    prefixes_stand_before_the_rest("aws_"@, rest);
    texts_without_prefix(c.resource_type@, "aws_"@);
}

/// A resource has a known prefix of its name exactly if it has no name but a prefix that is a text
/// and not empty.
pub proof fn prefixes_stand_for_unknown_names(after: JsonValue)
    ensures
        name_prefix_of(after) is Some <==> (json_field(after, "name"@) is None || json_field(
            after,
            "name"@,
        )->0 is Null) && (json_field(after, "name_prefix"@) matches Some(v) && v
            matches JsonValue::Text(s) && s@.len() > 0),
        name_prefix_of(after) matches Some(p) ==> (json_field(after, "name_prefix"@)->0
            matches JsonValue::Text(s) && s@ == p),
{
}

/// Plans count one behind the other.
pub proof fn plans_count_one_by_one(
    a: Seq<Vec<RawResourceChange>>,
    p: Vec<RawResourceChange>,
    b: Seq<Vec<RawResourceChange>>,
)
    ensures
        all_planned(a + seq![p] + b) == all_planned(a) + planned_of(p@) + all_planned(b),
    decreases b.len(),
{
    let v = a + seq![p] + b;
    if b.len() == 0 {
        assert(v.drop_last() =~= a);
        assert(v.last() == p);
        assert(all_planned(v) =~= all_planned(a) + planned_of(p@) + all_planned(b));
    } else {
        let t = b.drop_last();
        plans_count_one_by_one(a, p, t);
        assert(v.drop_last() =~= a + seq![p] + t);
        assert(v.last() == b.last());
        assert(all_planned(v) =~= all_planned(a) + planned_of(p@) + all_planned(b));
    }
}

/// There is a warning for a change exactly if there is no operation behind it, and the warning names
/// the resource and its type.
pub proof fn changes_without_operations_are_warned_of(
    crud: Seq<EntryView>,
    patterns: Seq<PatternView>,
    r: PlannedView,
)
    ensures
        resource_warning(crud, patterns, r) is Some <==> resource_operations(
            crud,
            patterns,
            r,
        ).len() == 0,
        resource_warning(crud, patterns, r) matches Some(w) ==> exists|why: Seq<char>|
            w == #[trigger] ("Resource '"@ + r.address + "' ("@ + r.resource_type + ")"@ + why),
{
}

/// Warnings come one by one, in the order of the changes.
pub proof fn warnings_come_one_by_one(
    crud: Seq<EntryView>,
    patterns: Seq<PatternView>,
    a: Seq<PlannedView>,
    r: PlannedView,
    b: Seq<PlannedView>,
)
    ensures
        plan_warnings(crud, patterns, a + seq![r] + b) == plan_warnings(crud, patterns, a) + (
        match resource_warning(crud, patterns, r) {
            Some(w) => seq![w],
            None => Seq::empty(),
        }) + plan_warnings(crud, patterns, b),
    decreases b.len(),
{
    let v = a + seq![r] + b;
    let own = match resource_warning(crud, patterns, r) {
        Some(w) => seq![w],
        None => Seq::empty(),
    };
    let all = plan_warnings(crud, patterns, v);
    if b.len() == 0 {
        assert(v.drop_last() =~= a);
        assert(v.last() == r);
        assert(all =~= plan_warnings(crud, patterns, a) + own + plan_warnings(crud, patterns, b));
    } else {
        let t = b.drop_last();
        warnings_come_one_by_one(crud, patterns, a, r, t);
        assert(v.drop_last() =~= a + seq![r] + t);
        assert(v.last() == b.last());
        assert(all =~= plan_warnings(crud, patterns, a) + own + plan_warnings(crud, patterns, b));
    }
}

/// A document is a plan exactly if it has a version of its format and a list of changes, wherever
/// the two stand.
pub proof fn plans_have_a_version_and_changes(fields: Seq<(Seq<char>, bool)>)
    ensures
        fields_make_plan(fields) <==> exists|i: int, j: int|
            0 <= i < fields.len() && 0 <= j < fields.len() && (#[trigger] fields[i]).0
                == "format_version"@ && (#[trigger] fields[j]).0 == "resource_changes"@
                && fields[j].1,
{
    if fields_make_plan(fields) {
        let i = choose|i: int| 0 <= i < fields.len() && (#[trigger] fields[i]).0
            == "format_version"@;
        let j = choose|j: int| 0 <= j < fields.len() && fields[j] == ("resource_changes"@, true);
        assert(fields[i].0 == "format_version"@ && fields[j].0 == "resource_changes"@);
    }
    if exists|i: int, j: int|
        0 <= i < fields.len() && 0 <= j < fields.len() && (#[trigger] fields[i]).0
            == "format_version"@ && (#[trigger] fields[j]).0 == "resource_changes"@
            && fields[j].1 {
        let (i, j) = choose|i: int, j: int|
            0 <= i < fields.len() && 0 <= j < fields.len() && (#[trigger] fields[i]).0
                == "format_version"@ && (#[trigger] fields[j]).0 == "resource_changes"@
                && fields[j].1;
        assert(fields[j] == ("resource_changes"@, true));
    }
}

/// A symbol has no handler if its package is missing or has a slash in it, or if it has no function.
pub proof fn incomplete_symbols_have_no_handler(rest: Seq<char>)
    ensures
        !rest.contains('.') ==> symbol_key("/internal/service/"@ + rest) is None,
        rest.len() > 0 && rest[0] == '.' ==> symbol_key("/internal/service/"@ + rest) is None,
        rest.len() > 0 && rest.last() == '.' && !rest.drop_last().contains('.') ==> symbol_key(
            "/internal/service/"@ + rest,
        ) is None,
{
    let marker = "/internal/service/"@;
    let s = marker + rest;
    let none = Seq::<char>::empty();
    texts_are_found_first(s, marker, 0);
    assert(s.subrange(0, marker.len() as int) =~= marker);
    assert(crate::text::find_text_from(s, marker, 0) == Some(0int));
    assert(s.subrange(marker.len() as int, s.len() as int) =~= rest);
    if !rest.contains('.') {
        characters_are_found_first(rest, '.', none);
    }
    if rest.len() > 0 && rest[0] == '.' {
        let tail = rest.subrange(1, rest.len() as int);
        characters_are_found_first(none, '.', tail);
        assert(none + seq!['.'] + tail =~= rest);
    }
    if rest.len() > 0 && rest.last() == '.' && !rest.drop_last().contains('.') {
        let head = rest.drop_last();
        characters_are_found_first(head, '.', none);
        assert(head + seq!['.'] + none =~= rest);
    }
}

/// A package with a slash in it is that of no handler.
pub proof fn nested_packages_have_no_handler(outer: Seq<char>, rest: Seq<char>)
    requires
        !outer.contains('.'),
        !outer.contains('/'),
    ensures
        symbol_key("/internal/service/"@ + (outer + seq!['/'] + rest)) is None,
{
    let marker = "/internal/service/"@;
    let inner = outer + seq!['/'] + rest;
    let s = marker + inner;
    texts_are_found_first(s, marker, 0);
    assert(s.subrange(0, marker.len() as int) =~= marker);
    assert(crate::text::find_text_from(s, marker, 0) == Some(0int));
    assert(s.subrange(marker.len() as int, s.len() as int) =~= inner);
    characters_are_found_first(outer, '/', rest);
    crate::text::lemma_find_from(inner, '.', 0);
    let dot = crate::text::find_from(inner, '.', 0);
    if dot < outer.len() {
        assert(outer[dot] == '.');
    } else if dot == outer.len() {
        assert(inner[dot] == '/');
    }
}

/// The functions of a change come in the order of its steps, those of the tags behind them.
pub proof fn functions_come_in_the_order_of_steps(
    entry: EntryView,
    slots: CrudSlots,
    c: Seq<char>,
    r: Seq<char>,
    u: Seq<char>,
    d: Seq<char>,
    l: Seq<char>,
    t: Seq<char>,
)
    requires
        entry.create == Some(c),
        entry.read == Some(r),
        entry.update == Some(u),
        entry.delete == Some(d),
        entry.list_tags == Some(l),
        entry.update_tags == Some(t),
    ensures
        entry.symbols() == seq![c, r, u, d, l, t],
        slots.create && slots.read && slots.update && slots.delete ==> exercised(entry, slots)
            == seq![c, r, u, d, l, t],
        slots.create && slots.read && !slots.update && !slots.delete ==> exercised(entry, slots)
            == seq![c, r, l, t],
        slots.create && slots.read && !slots.update && slots.delete ==> exercised(entry, slots)
            == seq![c, r, d, l, t],
        !slots.create && slots.read && slots.update && !slots.delete ==> exercised(entry, slots)
            == seq![r, u, l, t],
        !slots.create && slots.read && !slots.update && slots.delete ==> exercised(entry, slots)
            == seq![r, d, l],
        !slots.create && slots.read && !slots.update && !slots.delete ==> exercised(entry, slots)
            == seq![r, l],
{
    assert(entry.symbols() =~= seq![c, r, u, d, l, t]);
    let e = exercised(entry, slots);
    if slots.read {
        if slots.create && slots.update && slots.delete {
            assert(e =~= seq![c, r, u, d, l, t]);
        } else if slots.create && !slots.update && !slots.delete {
            assert(e =~= seq![c, r, l, t]);
        } else if slots.create && !slots.update && slots.delete {
            assert(e =~= seq![c, r, d, l, t]);
        } else if !slots.create && slots.update && !slots.delete {
            assert(e =~= seq![r, u, l, t]);
        } else if !slots.create && !slots.update && slots.delete {
            assert(e =~= seq![r, d, l]);
        } else if !slots.create && !slots.update && !slots.delete {
            assert(e =~= seq![r, l]);
        }
    }
}

/// Functions and changes add their operations one by one.
pub proof fn operations_are_added_one_by_one(
    crud: Seq<EntryView>,
    patterns: Seq<PatternView>,
    symbols: Seq<Seq<char>>,
    f: Seq<char>,
    rs: Seq<PlannedView>,
    r: PlannedView,
)
    ensures
        symbols_operations(patterns, symbols.push(f)) == symbols_operations(patterns, symbols)
            + symbol_operations(patterns, f),
        symbols_operations(patterns, Seq::empty()).len() == 0,
        plan_operations(crud, patterns, rs.push(r)) == plan_operations(crud, patterns, rs)
            + resource_operations(crud, patterns, r),
        plan_operations(crud, patterns, Seq::empty()).len() == 0,
        entry_of(crud, r.resource_type) is None ==> resource_operations(
            crud,
            patterns,
            r,
        ).len() == 0,
        entry_of(crud, r.resource_type) matches Some(e) ==> resource_operations(crud, patterns, r)
            == symbols_operations(patterns, exercised(e, r.slots)),
        symbol_key(f) is None ==> symbol_operations(patterns, f).len() == 0,
        symbol_key(f) matches Some(k) ==> match operations_for(patterns, k) {
            Some(v) => symbol_operations(patterns, f) == v,
            None => symbol_operations(patterns, f).len() == 0,
        },
{
    assert(symbols.push(f).drop_last() =~= symbols);
    assert(rs.push(r).drop_last() =~= rs);
}

} // verus!
