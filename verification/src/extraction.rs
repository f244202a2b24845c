//! The calls of a run, whatever they are taken from.

use vstd::prelude::*;

use crate::language::Language;
use crate::sdk::{call_views, SdkMethodCall};
use crate::terraform::crud_map::CrudMap;
use crate::terraform::mapper::{all_planned, plan_calls, plan_to_sdk_calls, plan_warnings};
use crate::terraform::model_index::ModelIndex;
use crate::terraform::plan::RawResourceChange;
use crate::text::texts;

verus! {

/// What is known about an extraction beyond its calls.
#[derive(Debug)]
pub struct ExtractionMetadata {
    pub source_files: Vec<String>,
    pub warnings: Vec<String>,
    pub total_methods: usize,
}

/// The calls of a run.
#[derive(Debug)]
pub struct ExtractedMethods {
    pub methods: Vec<SdkMethodCall>,
    pub metadata: ExtractionMetadata,
    /// The language in whose SDK the services have the names that the calls use.
    pub sdk: Language,
}

/// The calls behind Terraform plans. The services have the names that they have in the SDK for Go.
pub fn extract_from_plans(
    plans: &Vec<Vec<RawResourceChange>>,
    crud_map: &CrudMap,
    model: &ModelIndex,
) -> (r: ExtractedMethods)
    ensures
        call_views(r.methods@) == plan_calls(crud_map@, model@.patterns, all_planned(plans@)),
        texts(r.metadata.warnings@) == plan_warnings(
            crud_map@,
            model@.patterns,
            all_planned(plans@),
        ),
        r.metadata.source_files@.len() == 0,
        r.metadata.total_methods == r.methods@.len(),
        r.sdk == Language::Go,
{
    let (mapped, _) = plan_to_sdk_calls(plans, crud_map, model);
    let total_methods: usize = mapped.calls.len();
    ExtractedMethods {
        methods: mapped.calls,
        metadata: ExtractionMetadata {
            source_files: Vec::new(),
            warnings: mapped.warnings,
            total_methods,
        },
        sdk: Language::Go,
    }
}

} // verus!
