//! The model of a library from its call graph and the SDK calls in it.

use vstd::prelude::*;

use crate::call_graph::{
    call_spans_fit, calls_reached, CallGraph, FunctionNode, GraphView, NodeView,
};
use crate::go_conventions::{function_key, GoConventions};
use crate::language::Language;
use crate::library_model::{
    operations_are_ordered, CallPattern, CallType, ExternalLibraryModel, ModelView, OperationView,
    PatternView, SdkOperationMapping,
};
use crate::order::{
    distinct, distinct_items, order_of, ordered_sets_are_unique, sorting_orders_strictly,
    stable_sort, stable_sorted, strictly_ordered, views,
};
use crate::sdk::{call_views, SdkCallView, SdkMethodCall};
use crate::text::same;

verus! {

/// The operations that a call may stand for: its name in each of its services.
pub open spec fn operations_of(call: SdkCallView) -> Seq<OperationView> {
    call.possible_services.map_values(
        |s: Seq<char>| OperationView { service: s, operation: call.name },
    )
}

/// The operations of all calls, one call behind the other.
pub open spec fn all_operations(calls: Seq<SdkCallView>) -> Seq<OperationView>
    decreases calls.len(),
{
    if calls.len() == 0 {
        Seq::empty()
    } else {
        all_operations(calls.drop_last()) + operations_of(calls.last())
    }
}

/// The operations of the calls, each once, by service and then by name.
pub open spec fn operation_list(calls: Seq<SdkCallView>) -> Seq<OperationView> {
    stable_sorted(distinct(all_operations(calls)), order_of::<SdkOperationMapping>())
}

/// The list of operations is in order, holds each operation once, and holds exactly those of the
/// calls.
pub proof fn operation_lists_are_in_order(calls: Seq<SdkCallView>)
    ensures
        strictly_ordered(operation_list(calls), order_of::<SdkOperationMapping>()),
        operation_list(calls).to_set() == all_operations(calls).to_set(),
{
    operations_are_ordered();
    distinct_items(all_operations(calls));
    sorting_orders_strictly(distinct(all_operations(calls)), order_of::<SdkOperationMapping>());
}

/// Calls of the same operations give the same list, in whatever order the calls are found and
/// however often.
pub proof fn order_of_calls_does_not_matter(a: Seq<SdkCallView>, b: Seq<SdkCallView>)
    requires
        all_operations(a).to_set() == all_operations(b).to_set(),
    ensures
        operation_list(a) == operation_list(b),
{
    operations_are_ordered();
    operation_lists_are_in_order(a);
    operation_lists_are_in_order(b);
    ordered_sets_are_unique(
        operation_list(a),
        operation_list(b),
        order_of::<SdkOperationMapping>(),
    );
}

/// What a model says of a function that reaches the calls.
pub open spec fn pattern_for(node: NodeView, calls: Seq<SdkCallView>) -> PatternView {
    let key = function_key(node);
    PatternView {
        module: key.module,
        class_name: key.class_name,
        function_name: key.function_name,
        call_type: if key.class_name is Some {
            CallType::InstanceMethod
        } else {
            CallType::Function
        },
        sdk_operations: operation_list(calls),
    }
}

/// What a model says of the entry points. One that reaches no call is left out.
pub open spec fn patterns_for(
    g: GraphView,
    entries: Seq<NodeView>,
    calls: Seq<SdkCallView>,
) -> Seq<PatternView>
    decreases entries.len(),
{
    if entries.len() == 0 {
        Seq::empty()
    } else {
        let rest = patterns_for(g, entries.drop_last(), calls);
        let reached = calls_reached(g, entries.last(), calls);
        if reached.len() == 0 {
            rest
        } else {
            rest.push(pattern_for(entries.last(), reached))
        }
    }
}

fn contains_operation(v: &Vec<SdkOperationMapping>, service: &str, operation: &str) -> (r: bool)
    ensures
        r == views(v@).contains(OperationView { service: service@, operation: operation@ }),
{
    let ghost s = views(v@);
    let ghost x = OperationView { service: service@, operation: operation@ };
    let mut i: usize = 0;
    while i < v.len()
        invariant
            i <= v@.len(),
            s == views(v@),
            x == (OperationView { service: service@, operation: operation@ }),
            forall|j: int| 0 <= j < i ==> s[j] != x,
        decreases v@.len() - i,
    {
        assert(s[i as int] == v@[i as int]@);
        if same(v[i].service.as_str(), service) && same(v[i].operation.as_str(), operation) {
            return true;
        }
        i = i + 1;
    }
    false
}

/// The operations of the calls, each once, by service and then by name.
pub fn deduplicate_operations(calls: &Vec<SdkMethodCall>) -> (r: Vec<SdkOperationMapping>)
    ensures
        views(r@) == operation_list(call_views(calls@)),
{
    let ghost s = call_views(calls@);
    let mut ops: Vec<SdkOperationMapping> = Vec::new();
    let mut i: usize = 0;
    proof {
        assert(s.subrange(0, 0).len() == 0);
        assert(views(ops@) =~= Seq::<OperationView>::empty());
        assert(distinct(Seq::<OperationView>::empty()) =~= Seq::<OperationView>::empty());
    }
    while i < calls.len()
        invariant
            i <= calls@.len(),
            s == call_views(calls@),
            views(ops@) == distinct(all_operations(s.subrange(0, i as int))),
        decreases calls@.len() - i,
    {
        let ghost t = s.subrange(0, i as int);
        let ghost u = s.subrange(0, i + 1);
        let call = &calls[i];
        let ghost own = operations_of(call@);
        let ghost base = all_operations(t);
        proof {
            assert(u.drop_last() =~= t);
            assert(u.last() == call@);
            assert(base + own.subrange(0, 0) =~= base);
        }
        let mut j: usize = 0;
        while j < call.possible_services.len()
            invariant
                j <= call.possible_services@.len(),
                own == operations_of(call@),
                own.len() == call.possible_services@.len(),
                views(ops@) == distinct(base + own.subrange(0, j as int)),
            decreases call.possible_services@.len() - j,
        {
            let ghost before = views(ops@);
            let service = &call.possible_services[j];
            let ghost x = OperationView { service: service@, operation: call.name@ };
            proof {
                assert(own[j as int] == x);
                let w = base + own.subrange(0, j + 1);
                assert(w.drop_last() =~= base + own.subrange(0, j as int));
                assert(w.last() == x);
            }
            if !contains_operation(&ops, service.as_str(), call.name.as_str()) {
                ops.push(
                    SdkOperationMapping { service: service.clone(), operation: call.name.clone() },
                );
                assert(views(ops@) =~= before.push(x));
            }
            j = j + 1;
        }
        assert(own.subrange(0, own.len() as int) =~= own);
        i = i + 1;
    }
    assert(s.subrange(0, s.len() as int) =~= s);
    stable_sort(ops)
}

/// Makes models.
#[derive(Debug, Clone, Copy, PartialEq, Eq, Structural)]
pub struct Engine;

impl Engine {
    pub fn new() -> (r: Self)
        ensures
            r == Engine,
    {
        Engine
    }

    /// The model of a library: for each entry point the operations of the calls that it reaches.
    pub fn generate(
        &self,
        call_graph: &CallGraph,
        entry_points: &Vec<FunctionNode>,
        sdk_calls: &Vec<SdkMethodCall>,
        library_name: &str,
        language: Language,
        conventions: &GoConventions,
    ) -> (r: ExternalLibraryModel)
        requires
            call_spans_fit(call_graph@, call_views(sdk_calls@)),
        ensures
            r@ == (ModelView {
                library_name: library_name@,
                language,
                version: None,
                call_patterns: patterns_for(
                    call_graph@,
                    views(entry_points@),
                    call_views(sdk_calls@),
                ),
            }),
    {
        let ghost g = call_graph@;
        let ghost calls = call_views(sdk_calls@);
        let ghost s = views(entry_points@);
        let partitioned = call_graph.partition_calls(entry_points, sdk_calls);
        let mut call_patterns: Vec<CallPattern> = Vec::new();
        let mut i: usize = 0;
        proof {
            assert(s.subrange(0, 0).len() == 0);
            assert(views(call_patterns@) =~= Seq::<PatternView>::empty());
        }
        while i < partitioned.len()
            invariant
                i <= partitioned@.len(),
                partitioned@.len() == entry_points@.len(),
                s == views(entry_points@),
                forall|k: int|
                    0 <= k < partitioned@.len() ==> (#[trigger] partitioned@[k]).0@
                        == entry_points@[k]@ && call_views(partitioned@[k].1@) == calls_reached(
                        g,
                        entry_points@[k]@,
                        calls,
                    ),
                views(call_patterns@) == patterns_for(g, s.subrange(0, i as int), calls),
            decreases partitioned@.len() - i,
        {
            let ghost u = s.subrange(0, i + 1);
            let ghost before = views(call_patterns@);
            let (func, reached) = &partitioned[i];
            proof {
                assert(u.drop_last() =~= s.subrange(0, i as int));
                assert(partitioned@[i as int].0@ == entry_points@[i as int]@);
                assert(u.last() == func@);
                assert(call_views(reached@).len() == reached@.len());
            }
            if reached.len() > 0 {
                let pattern = self.build_call_pattern(func, reached, conventions);
                let ghost p = pattern@;
                call_patterns.push(pattern);
                assert(views(call_patterns@) =~= before.push(p));
            }
            i = i + 1;
        }
        assert(s.subrange(0, s.len() as int) =~= s);
        ExternalLibraryModel {
            library_name: library_name.to_string(),
            language,
            version: None,
            call_patterns,
        }
    }

    fn build_call_pattern(
        &self,
        func: &FunctionNode,
        calls: &Vec<SdkMethodCall>,
        conventions: &GoConventions,
    ) -> (r: CallPattern)
        ensures
            r@ == pattern_for(func@, call_views(calls@)),
    {
        let parsed = conventions.parse_function_name(func);
        let call_type = match &parsed.class_name {
            Some(_) => CallType::InstanceMethod,
            None => CallType::Function,
        };
        CallPattern {
            module: parsed.module,
            class_name: parsed.class_name,
            function_name: parsed.function_name,
            call_type,
            sdk_operations: deduplicate_operations(calls),
        }
    }
}

} // verus!
