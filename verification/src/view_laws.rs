//! What the values of the library stand for: all that is in them.

use vstd::prelude::*;

use crate::call_graph::{edge_views, FileFilter, FilterView, FunctionNode};
use crate::call_hierarchy::DeclaredFunction;
use crate::generate_model::text_values;
use crate::go_conventions::component_lists;
use crate::input_kind::{file_is_plan, file_paths, plan_marks, InputFile};
use crate::java::ast::{tree, AstNode};
use crate::java::extractor::JavaExtractionError;
use crate::java::extractor::JavaErrorView;
use crate::java::imports::{ImportEntry, ImportTables};
use crate::java::scan::{match_views, AstMatch};
use crate::java::services::{import_views, ref_views, ServiceMethodRef, ServiceModelIndex};
use crate::java::types::{
    opt_declaration, Call, ExtractionResult, Import, Paginator, ReceiverDeclaration, UtilityImport,
    Waiter,
};
use crate::java::utilities::{
    JavaUtilitiesModel, JavaUtilityFeature, JavaUtilityOperation, UtilityService,
};
use crate::javascript::types::CommandUsage;
use crate::library_model::{
    pattern_key, CallPattern, CallPatternKey, ExternalLibraryModel, SdkOperationMapping,
};
use crate::order::views;
use crate::policy_checker::{parsed_views, ParsedStatement, PolicyChecker};
use crate::review::actions::{group_views, ActionGroup};
use crate::review::comment::reasons_of;
use crate::review::diff::{added_views, line_ints, AddedLine};
use crate::review::generate::keys_of;
use crate::sdk::{
    call_views, opt_metadata, parameter_views, Location, Parameter, ParameterValue,
    ParameterValueView, ParameterView, SdkMethodCall, SdkMethodCallMetadata,
};
use crate::terraform::crud_map::{text_ref, CrudSlot, CrudSlots, EntryView, ResourceEntry};
use crate::terraform::plan::{field_views, PlannedResource};
use crate::text::{opt_text, texts};
use crate::text_map::{key_position, TextMap};

verus! {

/// A place has its file, its start and its end.
pub proof fn places_keep_their_parts(l: Location)
    ensures
        l@.file_path == l.file_path@,
        l@.start_position == l.start_position,
        l@.end_position == l.end_position,
{
}

/// An argument has its value, its position and what else is known of it.
pub proof fn arguments_keep_their_parts(p: Parameter, v: ParameterValue)
    ensures
        v matches ParameterValue::Resolved(s) ==> v@ == ParameterValueView::Resolved(s@),
        v matches ParameterValue::Unresolved(s) ==> v@ == ParameterValueView::Unresolved(s@),
        p matches Parameter::Positional { value, position, type_annotation, struct_fields } ==> (p@
            matches ParameterView::Positional {
            value: w,
            position: i,
            type_annotation: t,
            struct_fields: f,
        } && w == value@ && i == position && t == opt_text(type_annotation) && (f is Some
            == struct_fields is Some) && (f is Some ==> f->0 == texts(struct_fields->0@))),
        p matches Parameter::Keyword { name, value, position, type_annotation } ==> (p@
            matches ParameterView::Keyword {
            name: n,
            value: w,
            position: i,
            type_annotation: t,
        } && n == name@ && w == value@ && i == position && t == opt_text(type_annotation)),
{
}

/// What may be missing is there exactly if it is.
pub proof fn options_keep_their_items(
    o: Option<String>,
    r: Option<&String>,
    m: Option<SdkMethodCallMetadata>,
    d: Option<ReceiverDeclaration>,
)
    ensures
        o matches Some(s) ==> opt_text(o) == Some(s@),
        o is None ==> opt_text(o) is None,
        r matches Some(s) ==> text_ref(r) == Some(s@),
        r is None ==> text_ref(r) is None,
        m matches Some(x) ==> opt_metadata(m) == Some(x@),
        m is None ==> opt_metadata(m) is None,
        d matches Some(x) ==> opt_declaration(d) == Some(x@),
        d is None ==> opt_declaration(d) is None,
{
}

/// A call has its name, all its possible services and all that is known of its place.
pub proof fn calls_keep_their_parts(c: SdkMethodCall, m: SdkMethodCallMetadata, i: int)
    ensures
        c@.name == c.name@,
        c@.possible_services == texts(c.possible_services@),
        c@.metadata == opt_metadata(c.metadata),
        m@.expr == m.expr@,
        m@.location == m.location@,
        m@.parameters.len() == m.parameters@.len(),
        0 <= i < m.parameters@.len() ==> m@.parameters[i] == m.parameters@[i]@,
        m@.receiver == opt_text(m.receiver),
{
}

/// Lists have all their items, in their places.
pub proof fn lists_of_calls_keep_their_items(
    cs: Seq<SdkMethodCall>,
    ps: Seq<Parameter>,
    ss: Seq<ParsedStatement>,
    i: int,
)
    ensures
        call_views(cs).len() == cs.len(),
        0 <= i < cs.len() ==> call_views(cs)[i] == cs[i]@,
        parameter_views(ps).len() == ps.len(),
        0 <= i < ps.len() ==> parameter_views(ps)[i] == ps[i]@,
        parsed_views(ss).len() == ss.len(),
        0 <= i < ss.len() ==> parsed_views(ss)[i] == ss[i]@,
{
}

/// A use of a name has its text, its place and its arguments.
pub proof fn uses_keep_their_parts(u: CommandUsage)
    ensures
        u@.text == u.text@,
        u@.location == u.location@,
        u@.parameters == parameter_views(u.parameters@),
{
}

/// What is found in Java code keeps all its parts.
pub proof fn java_findings_keep_their_parts(
    d: ReceiverDeclaration,
    m: Import,
    u: UtilityImport,
    c: Call,
    w: Waiter,
    p: Paginator,
)
    ensures
        d@.expr == d.expr@ && d@.declared_type == opt_text(d.declared_type) && d@.location
            == d.location@,
        m@.expr == m.expr@ && m@.service == m.service@ && m@.location == m.location@ && m@.is_static
            == m.is_static,
        u@.expr == u.expr@ && u@.utility_name == u.utility_name@ && u@.class_name == u.class_name@
            && u@.location == u.location@,
        c@.expr == c.expr@ && c@.receiver == opt_text(c.receiver) && c@.method == c.method@
            && c@.parameters == parameter_views(c.parameters@) && c@.location == c.location@
            && c@.receiver_declaration == opt_declaration(c.receiver_declaration),
        w@.expr == w.expr@ && w@.name == w.name@ && w@.parameters == parameter_views(w.parameters@)
            && w@.location == w.location@ && w@.receiver_declaration == opt_declaration(
            w.receiver_declaration,
        ),
        p@.expr == p.expr@ && p@.operation == p.operation@ && p@.parameters == parameter_views(
            p.parameters@,
        ) && p@.location == p.location@ && p@.receiver_declaration == opt_declaration(
            p.receiver_declaration,
        ),
{
}

/// All that is found in Java code counts.
pub proof fn java_results_keep_their_items(x: ExtractionResult, i: int)
    ensures
        x@.imports.len() == x.imports@.len(),
        x@.utility_imports.len() == x.utility_imports@.len(),
        x@.calls.len() == x.calls@.len(),
        x@.waiters.len() == x.waiters@.len(),
        x@.paginators.len() == x.paginators@.len(),
        0 <= i < x.imports@.len() ==> x@.imports[i] == x.imports@[i]@,
        0 <= i < x.utility_imports@.len() ==> x@.utility_imports[i] == x.utility_imports@[i]@,
        0 <= i < x.calls@.len() ==> x@.calls[i] == x.calls@[i]@,
        0 <= i < x.waiters@.len() ==> x@.waiters[i] == x.waiters@[i]@,
        0 <= i < x.paginators@.len() ==> x@.paginators[i] == x.paginators@[i]@,
{
}

/// An index knows all its services, methods and waiters.
pub proof fn java_indexes_keep_their_entries(
    x: ServiceModelIndex,
    k: Seq<char>,
    r: ServiceMethodRef,
    v: Seq<ServiceMethodRef>,
    w: Seq<Import>,
    i: int,
)
    ensures
        x@.service_ids.contains_key(k) == x.services@.contains_key(k),
        x.services@.contains_key(k) ==> x@.service_ids[k] == x.services@[k].service_id@,
        x@.methods.contains_key(k) == x.method_lookup@.contains_key(k),
        x.method_lookup@.contains_key(k) ==> x@.methods[k] == ref_views(x.method_lookup@[k]@),
        x@.waiters.contains_key(k) == x.waiter_lookup@.contains_key(k),
        x.waiter_lookup@.contains_key(k) ==> x@.waiters[k] == ref_views(x.waiter_lookup@[k]@),
        r@.service_name == r.service_name@ && r@.operation_name == r.operation_name@,
        ref_views(v).len() == v.len(),
        0 <= i < v.len() ==> ref_views(v)[i] == v[i]@,
        import_views(w).len() == w.len(),
        0 <= i < w.len() ==> import_views(w)[i] == w[i]@,
{
}

/// A model of utilities knows all its services, their features and their operations.
pub proof fn java_utilities_keep_their_parts(
    o: JavaUtilityOperation,
    f: JavaUtilityFeature,
    s: UtilityService,
    m: JavaUtilitiesModel,
    i: int,
)
    ensures
        o@.service == o.service@ && o@.name == o.name@,
        f@.method_name == f.method_name@ && f@.receiver_class == f.receiver_class@ && f@.import
            == f.import@,
        f@.operations.len() == f.operations@.len(),
        0 <= i < f.operations@.len() ==> f@.operations[i] == f.operations@[i]@,
        s@.name == s.name@ && s@.features.len() == s.features@.len(),
        0 <= i < s.features@.len() ==> s@.features[i] == s.features@[i]@,
        m@.len() == m.services@.len(),
        0 <= i < m.services@.len() ==> m@[i] == m.services@[i]@,
{
}

/// The tables of imports keep all their entries.
pub proof fn java_tables_keep_their_entries(t: ImportTables, e: ImportEntry, k: Seq<char>, i: int)
    ensures
        e@.prefix == e.prefix@ && e@.service_name == e.service_name@,
        t@.services.contains_key(k) == t.services@.contains_key(k),
        t.services@.contains_key(k) ==> t@.services[k] == t.services@[k]@,
        t@.utilities.len() == t.utilities@.len(),
        0 <= i < t.utilities@.len() ==> t@.utilities[i] == t.utilities@[i]@,
{
}

/// Nodes and matches of a syntax tree keep all their parts.
pub proof fn syntax_keeps_its_parts(
    n: AstNode,
    m: AstMatch,
    t: Seq<AstNode>,
    ms: Seq<AstMatch>,
    i: int,
)
    ensures
        n@.kind == n.kind@ && n@.text == n.text@ && n@.start_byte == n.start_byte && n@.end_byte
            == n.end_byte && n@.start == n.start && n@.end == n.end && n@.depth == n.depth,
        m@.node == m.node && m@.captures == m.captures@,
        tree(t).len() == t.len(),
        0 <= i < t.len() ==> tree(t)[i] == t[i]@,
        match_views(ms).len() == ms.len(),
        0 <= i < ms.len() ==> match_views(ms)[i] == ms[i]@,
{
}

/// A model of a library keeps its patterns, with all their operations.
pub proof fn models_keep_their_parts(
    o: SdkOperationMapping,
    k: CallPatternKey,
    p: CallPattern,
    m: ExternalLibraryModel,
)
    ensures
        o@.service == o.service@ && o@.operation == o.operation@,
        k@.module == k.module@ && k@.class_name == opt_text(k.class_name) && k@.function_name
            == k.function_name@,
        p@.module == p.module@ && p@.class_name == opt_text(p.class_name) && p@.function_name
            == p.function_name@ && p@.call_type == p.call_type && p@.sdk_operations == views(
            p.sdk_operations@,
        ),
        pattern_key(p@).module == p.module@ && pattern_key(p@).class_name == opt_text(p.class_name)
            && pattern_key(p@).function_name == p.function_name@,
        m@.library_name == m.library_name@ && m@.language == m.language && m@.version == opt_text(
            m.version,
        ) && m@.call_patterns == views(m.call_patterns@),
{
}

/// An entry of the map of resources has the function of each step, and those of the tags.
pub proof fn entries_keep_their_functions(e: ResourceEntry, v: EntryView, s: CrudSlots)
    ensures
        e@.resource_type == e.resource_type@,
        e@.create == opt_text(e.create),
        e@.read == opt_text(e.read),
        e@.update == opt_text(e.update),
        e@.delete == opt_text(e.delete),
        e.tags matches Some(t) ==> e@.list_tags == opt_text(t.list_tags_symbol) && e@.update_tags
            == opt_text(t.update_tags_symbol),
        e.tags is None ==> e@.list_tags is None && e@.update_tags is None,
        v.handler(CrudSlot::Create) == v.create,
        v.handler(CrudSlot::Read) == v.read,
        v.handler(CrudSlot::Update) == v.update,
        v.handler(CrudSlot::Delete) == v.delete,
        s.has(CrudSlot::Create) == s.create,
        s.has(CrudSlot::Read) == s.read,
        s.has(CrudSlot::Update) == s.update,
        s.has(CrudSlot::Delete) == s.delete,
{
}

/// A planned change keeps its address, its type, its steps and the prefix of its name.
pub proof fn planned_changes_keep_their_parts(p: PlannedResource, v: Seq<(String, bool)>, i: int)
    ensures
        p@.address == p.address@ && p@.resource_type == p.resource_type@ && p@.slots == p.slots
            && p@.name_prefix == opt_text(p.name_prefix),
        field_views(v).len() == v.len(),
        0 <= i < v.len() ==> field_views(v)[i] == (v[i].0@, v[i].1),
{
}

/// Functions and their files keep all their parts.
pub proof fn functions_keep_their_parts(
    n: FunctionNode,
    d: DeclaredFunction,
    f: FileFilter,
    es: Seq<(FunctionNode, Vec<FunctionNode>)>,
    i: int,
)
    ensures
        n@.name == n.name@ && n@.qualified_name == opt_text(n.qualified_name) && n@.location
            == n.location@,
        d@.node == d.node@ && d@.uri == d.uri@ && d@.name_position == d.name_position,
        f matches FileFilter::Is(p) ==> f@ == FilterView::Is(p@),
        f matches FileFilter::EndsWith(p) ==> f@ == FilterView::EndsWith(p@),
        edge_views(es).len() == es.len(),
        0 <= i < es.len() ==> edge_views(es)[i] == (es[i].0@, views(es[i].1@)),
{
}

/// What a review is made of keeps all its parts.
pub proof fn reviews_keep_their_parts(
    a: AddedLine,
    g: ActionGroup,
    ls: Seq<AddedLine>,
    gs: Seq<ActionGroup>,
    ns: Seq<u32>,
    ks: Seq<(String, String)>,
    m: Map<Seq<char>, String>,
    k: Seq<char>,
    i: int,
)
    ensures
        a@ == (a.file@, a.line as int),
        g@.key == g.key@ && g@.actions == texts(g.actions@),
        added_views(ls).len() == ls.len(),
        0 <= i < ls.len() ==> added_views(ls)[i] == ls[i]@,
        group_views(gs).len() == gs.len(),
        0 <= i < gs.len() ==> group_views(gs)[i] == gs[i]@,
        line_ints(ns).len() == ns.len(),
        0 <= i < ns.len() ==> line_ints(ns)[i] == ns[i],
        keys_of(ks).len() == ks.len(),
        0 <= i < ks.len() ==> keys_of(ks)[i] == ks[i].0@,
        reasons_of(m).contains_key(k) == m.contains_key(k),
        m.contains_key(k) ==> reasons_of(m)[k] == m[k]@,
        text_values(m).contains_key(k) == m.contains_key(k),
        m.contains_key(k) ==> text_values(m)[k] == m[k]@,
{
}

/// Inputs and lists of components keep all their items.
pub proof fn inputs_keep_their_items(fs: Seq<InputFile>, v: Seq<Vec<String>>, p: PolicyChecker, i: int)
    ensures
        file_paths(fs).len() == fs.len() && plan_marks(fs).len() == fs.len(),
        0 <= i < fs.len() ==> file_paths(fs)[i] == fs[i].path@ && plan_marks(fs)[i] == file_is_plan(
            fs[i],
        ),
        component_lists(v).len() == v.len(),
        0 <= i < v.len() ==> component_lists(v)[i] == texts(v[i]@),
        p@.len() == p.statements@.len(),
        0 <= i < p.statements@.len() ==> p@[i] == p.statements@[i]@,
{
}

/// An error of a Java file names it.
pub proof fn java_errors_keep_their_parts(e: JavaExtractionError)
    ensures
        e matches JavaExtractionError::NotJavaFile { path } ==> e@ == (JavaErrorView::NotJavaFile {
            path: path@,
        }),
        e matches JavaExtractionError::ParseError { path, message } ==> e@ == (
        JavaErrorView::ParseError { path: path@, message: message@ }),
{
}

/// A map from texts has a key exactly if an entry has it, and the value of the first such entry.
pub proof fn maps_have_their_entries<V>(m: TextMap<V>, k: Seq<char>, i: int)
    requires
        0 <= i <= m.entry_list().len(),
        forall|j: int| 0 <= j < i ==> (#[trigger] m.entry_list()[j]).0@ != k,
        i < m.entry_list().len() ==> m.entry_list()[i].0@ == k,
    ensures
        m@.contains_key(k) == (i < m.entry_list().len()),
        i < m.entry_list().len() ==> m@[k] == m.entry_list()[i].1,
{
    lemma_key(m.entry_list(), k, i);
}

proof fn lemma_key<V>(s: Seq<(String, V)>, k: Seq<char>, i: int)
    requires
        0 <= i <= s.len(),
        forall|j: int| 0 <= j < i ==> (#[trigger] s[j]).0@ != k,
        i < s.len() ==> s[i].0@ == k,
    ensures
        key_position(s, k) == i,
    decreases s.len(),
{
    if i > 0 {
        let t = s.subrange(1, s.len() as int);
        assert(s[0].0@ != k);
        assert forall|j: int| 0 <= j < i - 1 implies (#[trigger] t[j]).0@ != k by {
            assert(t[j] == s[j + 1]);
        }
        lemma_key(t, k, i - 1);
    }
}

} // verus!
