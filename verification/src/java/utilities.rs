//! High-level methods of the SDK that stand for several operations.

use vstd::prelude::*;

use crate::java::imports::last_segment;
use crate::java::types::{
    receiver_type, receiver_type_of, Call, CallView, ExtractionResult, UtilityImport,
    UtilityImportView,
};
use crate::paths::{path_components, same_path};
use crate::sdk::{
    call_views, copy_parameters, MetadataView, SdkCallView, SdkMethodCall, SdkMethodCallMetadata,
};
use crate::text::{
    after_prefix, concat, same, split, split_on, strip_prefix, texts,
};

verus! {

/// An operation that a utility method needs.
#[derive(Debug, PartialEq, Eq)]
pub struct JavaUtilityOperation {
    pub service: String,
    pub name: String,
}

pub struct OperationView {
    pub service: Seq<char>,
    pub name: Seq<char>,
}

impl View for JavaUtilityOperation {
    type V = OperationView;

    open spec fn view(&self) -> OperationView {
        OperationView { service: self.service@, name: self.name@ }
    }
}

/// A utility method.
#[derive(Debug, PartialEq, Eq)]
pub struct JavaUtilityFeature {
    pub method_name: String,
    /// The class that has the method.
    pub receiver_class: String,
    /// The package of that class.
    pub import: String,
    pub operations: Vec<JavaUtilityOperation>,
}

pub struct FeatureView {
    pub method_name: Seq<char>,
    pub receiver_class: Seq<char>,
    pub import: Seq<char>,
    pub operations: Seq<OperationView>,
}

impl View for JavaUtilityFeature {
    type V = FeatureView;

    open spec fn view(&self) -> FeatureView {
        FeatureView {
            method_name: self.method_name@,
            receiver_class: self.receiver_class@,
            import: self.import@,
            operations: self.operations@.map_values(|o: JavaUtilityOperation| o@),
        }
    }
}

/// The utility methods of a service.
#[derive(Debug, PartialEq, Eq)]
pub struct UtilityService {
    pub name: String,
    pub features: Vec<JavaUtilityFeature>,
}

pub struct UtilityServiceView {
    pub name: Seq<char>,
    pub features: Seq<FeatureView>,
}

impl View for UtilityService {
    type V = UtilityServiceView;

    open spec fn view(&self) -> UtilityServiceView {
        UtilityServiceView {
            name: self.name@,
            features: self.features@.map_values(|f: JavaUtilityFeature| f@),
        }
    }
}

/// The utility methods of all services.
#[derive(Debug, PartialEq, Eq)]
pub struct JavaUtilitiesModel {
    pub services: Vec<UtilityService>,
}

pub type ModelView = Seq<UtilityServiceView>;

impl View for JavaUtilitiesModel {
    type V = Seq<UtilityServiceView>;

    open spec fn view(&self) -> Seq<UtilityServiceView> {
        self.services@.map_values(|s: UtilityService| s@)
    }
}

/// The class of a qualified name: its last segment without type arguments.
pub open spec fn class_part(rest: Seq<char>) -> Seq<char> {
    split_on(split_on(rest, '<')[0], '.').last()
}

/// Whether a variable of the type `name` is a receiver of the utility method. A qualified name
/// has to be in the package of the class.
pub open spec fn type_is_receiver(name: Seq<char>, f: FeatureView) -> bool {
    ||| name == f.receiver_class
    ||| after_prefix(name, f.import + "."@) matches Some(rest) && class_part(rest)
        == f.receiver_class
}

/// Whether an import of the file `path` brings the receiver class into scope: an import of the
/// class itself, or a wildcard import for the same service.
pub open spec fn class_is_imported(
    imports: Seq<UtilityImportView>,
    path: Seq<char>,
    service: Seq<char>,
    f: FeatureView,
) -> bool {
    exists|i: int|
        0 <= i < imports.len() && path_components((#[trigger] imports[i]).location.file_path)
            == path_components(path) && (imports[i].class_name == f.receiver_class || (
        imports[i].class_name == "*"@ && imports[i].utility_name == service))
}

/// Whether a call is a call of the utility method.
pub open spec fn is_utility_call(
    c: CallView,
    imports: Seq<UtilityImportView>,
    service: Seq<char>,
    f: FeatureView,
) -> bool {
    &&& f.method_name == c.method
    &&& match receiver_type_of(c.receiver_declaration) {
        Some(name) => type_is_receiver(name, f),
        None => class_is_imported(imports, c.location.file_path, service, f),
    }
}

/// The SDK calls of a utility method, one for each of its operations.
pub open spec fn feature_calls(c: CallView, f: FeatureView) -> Seq<SdkCallView> {
    f.operations.map_values(
        |o: OperationView|
            SdkCallView {
                name: o.name,
                possible_services: seq![o.service],
                metadata: Some(
                    MetadataView {
                        expr: c.expr,
                        location: c.location,
                        parameters: c.parameters,
                        receiver: None,
                    },
                ),
            },
    )
}

pub open spec fn calls_by_features(
    c: CallView,
    imports: Seq<UtilityImportView>,
    service: Seq<char>,
    fs: Seq<FeatureView>,
) -> Seq<SdkCallView>
    decreases fs.len(),
{
    if fs.len() == 0 {
        Seq::empty()
    } else {
        calls_by_features(c, imports, service, fs.drop_last()) + (if is_utility_call(
            c,
            imports,
            service,
            fs.last(),
        ) {
            feature_calls(c, fs.last())
        } else {
            Seq::empty()
        })
    }
}

pub open spec fn calls_by_services(
    c: CallView,
    imports: Seq<UtilityImportView>,
    ss: Seq<UtilityServiceView>,
) -> Seq<SdkCallView>
    decreases ss.len(),
{
    if ss.len() == 0 {
        Seq::empty()
    } else {
        calls_by_services(c, imports, ss.drop_last()) + calls_by_features(
            c,
            imports,
            ss.last().name,
            ss.last().features,
        )
    }
}

/// The SDK calls of all calls of utility methods.
pub open spec fn utility_calls(
    cs: Seq<CallView>,
    imports: Seq<UtilityImportView>,
    model: Seq<UtilityServiceView>,
) -> Seq<SdkCallView>
    decreases cs.len(),
{
    if cs.len() == 0 {
        Seq::empty()
    } else {
        utility_calls(cs.drop_last(), imports, model) + calls_by_services(cs.last(), imports, model)
    }
}

fn receives(name: &str, f: &JavaUtilityFeature) -> (r: bool)
    ensures
        r == type_is_receiver(name@, f@),
{
    if same(name, f.receiver_class.as_str()) {
        return true;
    }
    let prefix = concat(f.import.as_str(), ".");
    match strip_prefix(name, prefix.as_str()) {
        Some(rest) => {
            let parts = split(rest.as_str(), '<');
            assert(texts(parts@)[0] == parts@[0]@);
            let class = last_segment(parts[0].as_str());
            same(class.as_str(), f.receiver_class.as_str())
        },
        None => false,
    }
}

fn imports_class(
    imports: &Vec<UtilityImport>,
    path: &str,
    service: &str,
    f: &JavaUtilityFeature,
) -> (r: bool)
    ensures
        r == class_is_imported(
            imports@.map_values(|x: UtilityImport| x@),
            path@,
            service@,
            f@,
        ),
{
    let ghost s = imports@.map_values(|x: UtilityImport| x@);
    let mut i: usize = 0;
    while i < imports.len()
        invariant
            i <= imports@.len(),
            s == imports@.map_values(|x: UtilityImport| x@),
            forall|j: int|
                0 <= j < i ==> !(path_components((#[trigger] s[j]).location.file_path)
                    == path_components(path@) && (s[j].class_name
                    == f@.receiver_class || (s[j].class_name == "*"@ && s[j].utility_name
                    == service@))),
        decreases imports@.len() - i,
    {
        let x = &imports[i];
        assert(s[i as int] == x@);
        if same_path(x.location.file_path.as_str(), path) && (same(
            x.class_name.as_str(),
            f.receiver_class.as_str(),
        ) || (same(x.class_name.as_str(), "*") && same(x.utility_name.as_str(), service))) {
            return true;
        }
        i = i + 1;
    }
    false
}

fn append_feature_calls(out: &mut Vec<SdkMethodCall>, call: &Call, f: &JavaUtilityFeature)
    ensures
        call_views(final(out)@) == call_views(old(out)@) + feature_calls(call@, f@),
{
    let ghost start = call_views(out@);
    let ghost all = feature_calls(call@, f@);
    let mut i: usize = 0;
    assert(start + all.subrange(0, 0) =~= start);
    while i < f.operations.len()
        invariant
            i <= f.operations@.len(),
            all == feature_calls(call@, f@),
            call_views(out@) == start + all.subrange(0, i as int),
        decreases f.operations@.len() - i,
    {
        let ghost before = call_views(out@);
        let metadata = SdkMethodCallMetadata::new(
            call.expr.clone(),
            call.location.clone(),
        ).with_parameters(copy_parameters(&call.parameters));
        let services = vec![f.operations[i].service.clone()];
        let c = SdkMethodCall {
            name: f.operations[i].name.clone(),
            possible_services: services,
            metadata: Some(metadata),
        };
        out.push(c);
        proof {
            assert(f@.operations[i as int] == f.operations@[i as int]@);
            assert(texts(services@) =~= seq![f.operations@[i as int].service@]);
            assert(all[i as int] == c@);
            assert(call_views(out@) =~= before.push(c@));
            assert(start + all.subrange(0, i + 1) =~= (start + all.subrange(0, i as int)).push(
                all[i as int],
            ));
        }
        i = i + 1;
    }
    assert(all.subrange(0, all.len() as int) =~= all);
}

fn append_service_calls(
    out: &mut Vec<SdkMethodCall>,
    call: &Call,
    imports: &Vec<UtilityImport>,
    service: &UtilityService,
)
    ensures
        call_views(final(out)@) == call_views(old(out)@) + calls_by_features(
            call@,
            imports@.map_values(|x: UtilityImport| x@),
            service@.name,
            service@.features,
        ),
{
    let ghost start = call_views(out@);
    let ghost im = imports@.map_values(|x: UtilityImport| x@);
    let ghost fs = service@.features;
    let mut i: usize = 0;
    assert(fs.subrange(0, 0).len() == 0);
    assert(start + calls_by_features(call@, im, service@.name, fs.subrange(0, 0)) =~= start);
    while i < service.features.len()
        invariant
            i <= service.features@.len(),
            im == imports@.map_values(|x: UtilityImport| x@),
            fs == service@.features,
            call_views(out@) == start + calls_by_features(
                call@,
                im,
                service@.name,
                fs.subrange(0, i as int),
            ),
        decreases service.features@.len() - i,
    {
        let ghost u = fs.subrange(0, i + 1);
        let ghost before = call_views(out@);
        let f = &service.features[i];
        proof {
            assert(u.drop_last() =~= fs.subrange(0, i as int));
            assert(u.last() == f@);
        }
        let ghost prior = calls_by_features(call@, im, service@.name, u.drop_last());
        let used = same(f.method_name.as_str(), call.method.as_str()) && (match receiver_type(
            &call.receiver_declaration,
        ) {
            Some(name) => receives(name.as_str(), f),
            None => imports_class(
                imports,
                call.location.file_path.as_str(),
                service.name.as_str(),
                f,
            ),
        });
        if used {
            append_feature_calls(out, call, f);
            assert((start + prior) + feature_calls(call@, f@) =~= start + (prior + feature_calls(
                call@,
                f@,
            )));
        } else {
            assert(prior + Seq::<SdkCallView>::empty() =~= prior);
        }
        i = i + 1;
    }
    assert(fs.subrange(0, fs.len() as int) =~= fs);
}

fn append_call(
    out: &mut Vec<SdkMethodCall>,
    call: &Call,
    imports: &Vec<UtilityImport>,
    model: &JavaUtilitiesModel,
)
    ensures
        call_views(final(out)@) == call_views(old(out)@) + calls_by_services(
            call@,
            imports@.map_values(|x: UtilityImport| x@),
            model@,
        ),
{
    let ghost start = call_views(out@);
    let ghost im = imports@.map_values(|x: UtilityImport| x@);
    let ghost ss = model@;
    let mut i: usize = 0;
    assert(ss.subrange(0, 0).len() == 0);
    assert(start + calls_by_services(call@, im, ss.subrange(0, 0)) =~= start);
    while i < model.services.len()
        invariant
            i <= model.services@.len(),
            im == imports@.map_values(|x: UtilityImport| x@),
            ss == model@,
            call_views(out@) == start + calls_by_services(call@, im, ss.subrange(0, i as int)),
        decreases model.services@.len() - i,
    {
        let ghost u = ss.subrange(0, i + 1);
        let ghost prior = calls_by_services(call@, im, ss.subrange(0, i as int));
        proof {
            assert(u.drop_last() =~= ss.subrange(0, i as int));
            assert(u.last() == model.services@[i as int]@);
        }
        append_service_calls(out, call, imports, &model.services[i]);
        proof {
            let more = calls_by_features(call@, im, u.last().name, u.last().features);
            assert((start + prior) + more =~= start + (prior + more));
        }
        i = i + 1;
    }
    assert(ss.subrange(0, ss.len() as int) =~= ss);
}

/// The SDK calls of all calls of utility methods.
pub fn match_utilities(result: &ExtractionResult, model: &JavaUtilitiesModel) -> (r: Vec<
    SdkMethodCall,
>)
    ensures
        call_views(r@) == utility_calls(result@.calls, result@.utility_imports, model@),
{
    let mut out: Vec<SdkMethodCall> = Vec::new();
    let ghost cs = result@.calls;
    let ghost im = result.utility_imports@.map_values(|x: UtilityImport| x@);
    let mut i: usize = 0;
    assert(call_views(out@) =~= Seq::<SdkCallView>::empty());
    assert(cs.subrange(0, 0).len() == 0);
    while i < result.calls.len()
        invariant
            i <= result.calls@.len(),
            cs == result@.calls,
            im == result.utility_imports@.map_values(|x: UtilityImport| x@),
            call_views(out@) == utility_calls(cs.subrange(0, i as int), im, model@),
        decreases result.calls@.len() - i,
    {
        let ghost u = cs.subrange(0, i + 1);
        assert(u.drop_last() =~= cs.subrange(0, i as int));
        assert(u.last() == result.calls@[i as int]@);
        append_call(&mut out, &result.calls[i], &result.utility_imports, model);
        i = i + 1;
    }
    assert(cs.subrange(0, cs.len() as int) =~= cs);
    out
}

} // verus!
