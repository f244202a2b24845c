//! From Java source files to SDK calls.

use vstd::prelude::*;

use crate::errors::ExtractorError;
use crate::java::extractor::{
    all_labels, found_in, rule_of, JavaErrorView, JavaExtractionError, JavaLanguageExtractorSet,
    SdkExtractor,
};
use crate::java::imports::{ImportEntry, ImportEntryView, ImportTables, ImportTablesView};
use crate::java::matcher::{all_matched, JavaMatcher};
use crate::java::scan::java_scan;
use crate::java::services::ServiceModelIndex;
use crate::java::types::{both_found, nothing_found, ExtractionResult, ExtractionView};
use crate::java::utilities::{
    FeatureView, JavaUtilitiesModel, JavaUtilityFeature, UtilityService, UtilityServiceView,
};
use crate::language::{Language, SourceFile};
use crate::order::{order_of, stable_sort, stable_sorted, views};
use crate::sdk::{call_views, SdkCallView, SdkMethodCall};
use crate::text::{concat, owned, same};

verus! {

/// What is found in one file.
pub open spec fn found_in_file(
    es: Seq<SdkExtractor>,
    f: SourceFile,
    tables: ImportTablesView,
) -> Result<ExtractionView, JavaErrorView> {
    if f.language != Language::Java {
        Err(JavaErrorView::NotJavaFile { path: f.path@ })
    } else {
        match java_scan(rule_of(es), all_labels(), f.content@) {
            Ok(scan) => Ok(found_in(es, scan.nodes, scan.matches, f.path@, tables)),
            Err(message) => Err(
                JavaErrorView::ParseError {
                    path: f.path@,
                    message: "Failed to compile combined rule: "@ + message,
                },
            ),
        }
    }
}

/// What is found in all the files together, or the error of the first file that has one.
pub open spec fn found_in_files(
    es: Seq<SdkExtractor>,
    fs: Seq<SourceFile>,
    tables: ImportTablesView,
) -> Result<ExtractionView, JavaErrorView>
    decreases fs.len(),
{
    if fs.len() == 0 {
        Ok(nothing_found())
    } else {
        match found_in_files(es, fs.drop_last(), tables) {
            Err(e) => Err(e),
            Ok(before) => match found_in_file(es, fs.last(), tables) {
                Err(e) => Err(e),
                Ok(x) => Ok(both_found(before, x)),
            },
        }
    }
}

/// The extractors for AWS SDK for Java v2, the more specific ones first.
pub open spec fn aws_v2_extractors() -> Seq<SdkExtractor> {
    seq![
        SdkExtractor::Import,
        SdkExtractor::Paginator,
        SdkExtractor::WaiterCall,
        SdkExtractor::MethodCall,
    ]
}

pub proof fn lemma_error_stays(
    es: Seq<SdkExtractor>,
    fs: Seq<SourceFile>,
    n: int,
    tables: ImportTablesView,
)
    requires
        0 <= n <= fs.len(),
        found_in_files(es, fs.subrange(0, n), tables) is Err,
    ensures
        found_in_files(es, fs, tables) == found_in_files(es, fs.subrange(0, n), tables),
    decreases fs.len() - n,
{
    if n == fs.len() {
        assert(fs.subrange(0, n) =~= fs);
    } else {
        let u = fs.subrange(0, n + 1);
        assert(u.drop_last() =~= fs.subrange(0, n));
        lemma_error_stays(es, fs, n + 1, tables);
    }
}

/// The message of an error of Java extraction.
pub open spec fn java_error_message(e: JavaErrorView) -> Seq<char> {
    match e {
        JavaErrorView::NotJavaFile { path } => "Source file is not Java: "@ + path,
        JavaErrorView::ParseError { path, message } => message,
    }
}

pub open spec fn java_error_path(e: JavaErrorView) -> Seq<char> {
    match e {
        JavaErrorView::NotJavaFile { path } => path,
        JavaErrorView::ParseError { path, message } => path,
    }
}

/// Whether `x` is the error of method extraction for the error `e` of a Java file.
pub open spec fn is_java_error(x: ExtractorError, e: JavaErrorView) -> bool {
    x matches ExtractorError::MethodExtraction { language, path, message, source } && language@
        == "java"@ && path@ == java_error_path(e) && message@ == java_error_message(e)
        && source is None
}

impl JavaExtractionError {
    /// The same error among the errors of all languages.
    pub fn into_extractor_error(self) -> (r: ExtractorError)
        ensures
            is_java_error(r, self@),
    {
        match self {
            JavaExtractionError::NotJavaFile { path } => {
                let message = concat("Source file is not Java: ", path.as_str());
                ExtractorError::method_extraction(owned("java"), path, message)
            },
            JavaExtractionError::ParseError { path, message } => {
                ExtractorError::method_extraction(owned("java"), path, message)
            },
        }
    }
}

/// What is found in all the files together, or the error of the first file that has one.
pub fn extract_from_files(
    extractors: &JavaLanguageExtractorSet,
    files: &Vec<SourceFile>,
    tables: &ImportTables,
) -> (r: Result<ExtractionResult, JavaExtractionError>)
    ensures
        match r {
            Ok(x) => found_in_files(extractors.extractors@, files@, tables@) == Ok::<
                ExtractionView,
                JavaErrorView,
            >(x@),
            Err(e) => found_in_files(extractors.extractors@, files@, tables@) == Err::<
                ExtractionView,
                JavaErrorView,
            >(e@),
        },
{
    let mut all = ExtractionResult::default();
    let ghost es = extractors.extractors@;
    let ghost fs = files@;
    let mut i: usize = 0;
    assert(fs.subrange(0, 0).len() == 0);
    while i < files.len()
        invariant
            i <= files@.len(),
            es == extractors.extractors@,
            fs == files@,
            found_in_files(es, fs.subrange(0, i as int), tables@) == Ok::<
                ExtractionView,
                JavaErrorView,
            >(all@),
        decreases files@.len() - i,
    {
        let ghost u = fs.subrange(0, i + 1);
        assert(u.drop_last() =~= fs.subrange(0, i as int));
        assert(u.last() == files@[i as int]);
        match extractors.extract_from_file(&files[i], tables) {
            Ok(x) => {
                all.extend(x);
            },
            Err(e) => {
                proof {
                    lemma_error_stays(es, fs, i + 1, tables@);
                }
                return Err(e);
            },
        }
        i = i + 1;
    }
    assert(fs.subrange(0, fs.len() as int) =~= fs);
    Ok(all)
}

/// The SDK calls of an extraction, in the order of their names and places.
pub open spec fn sorted_matches(x: ExtractionView, index: ServiceModelIndex, model: JavaUtilitiesModel) -> Seq<
    SdkCallView,
> {
    stable_sorted(all_matched(x, index@, model@), order_of::<SdkMethodCall>())
}

/// The SDK calls of an extraction, in the order of their names and places.
pub fn match_and_sort(
    x: &ExtractionResult,
    index: &ServiceModelIndex,
    model: &JavaUtilitiesModel,
) -> (r: Vec<SdkMethodCall>)
    ensures
        call_views(r@) == sorted_matches(x@, *index, *model),
{
    let matcher = JavaMatcher::new(index, model);
    let calls = matcher.match_calls(x);
    assert(views(calls@) =~= call_views(calls@));
    let r = stable_sort(calls);
    assert(views(r@) =~= call_views(r@));
    r
}

/// The SDK calls in Java source files, in the order of their names and places.
pub fn extract_java_sdk_calls(
    files: &Vec<SourceFile>,
    tables: &ImportTables,
    index: &ServiceModelIndex,
    model: &JavaUtilitiesModel,
) -> (r: Result<Vec<SdkMethodCall>, ExtractorError>)
    ensures
        match r {
            Ok(calls) => files@.len() > 0 && (found_in_files(
                aws_v2_extractors(),
                files@,
                tables@,
            ) matches Ok(x) && call_views(calls@) == sorted_matches(x, *index, *model)),
            Err(e) => if files@.len() == 0 {
                e matches ExtractorError::Validation { message, field } && message@
                    == "No source files provided"@ && field is None
            } else {
                found_in_files(aws_v2_extractors(), files@, tables@) matches Err(x)
                    && is_java_error(e, x)
            },
        },
{
    if files.len() == 0 {
        return Err(ExtractorError::validation(owned("No source files provided")));
    }
    let extractors = JavaLanguageExtractorSet::default_aws_v2();
    match extract_from_files(&extractors, files, tables) {
        Ok(x) => Ok(match_and_sort(&x, index, model)),
        Err(e) => Err(e.into_extractor_error()),
    }
}

/// Whether the package is listed for the service.
pub open spec fn lists_package(
    es: Seq<ImportEntryView>,
    prefix: Seq<char>,
    service: Seq<char>,
) -> bool {
    exists|i: int|
        0 <= i < es.len() && (#[trigger] es[i]).prefix == prefix && es[i].service_name == service
}

/// The entries with the package of a utility method added, unless it is listed.
pub open spec fn with_package(
    es: Seq<ImportEntryView>,
    service: Seq<char>,
    f: FeatureView,
) -> Seq<ImportEntryView> {
    if lists_package(es, f.import, service) {
        es
    } else {
        es.push(ImportEntryView { prefix: f.import, service_name: service })
    }
}

pub open spec fn with_packages(
    es: Seq<ImportEntryView>,
    service: Seq<char>,
    fs: Seq<FeatureView>,
) -> Seq<ImportEntryView>
    decreases fs.len(),
{
    if fs.len() == 0 {
        es
    } else {
        with_package(with_packages(es, service, fs.drop_last()), service, fs.last())
    }
}

/// The packages of the utility classes of a model, each once for each service.
pub open spec fn packages_of(ss: Seq<UtilityServiceView>) -> Seq<ImportEntryView>
    decreases ss.len(),
{
    if ss.len() == 0 {
        Seq::empty()
    } else {
        with_packages(packages_of(ss.drop_last()), ss.last().name, ss.last().features)
    }
}

spec fn entry_views(v: Seq<ImportEntry>) -> Seq<ImportEntryView> {
    v.map_values(|e: ImportEntry| e@)
}

fn add_package(table: &mut Vec<ImportEntry>, service: &str, f: &JavaUtilityFeature)
    ensures
        entry_views(final(table)@) == with_package(entry_views(old(table)@), service@, f@),
{
    let ghost es = entry_views(table@);
    let mut i: usize = 0;
    while i < table.len()
        invariant
            i <= table@.len(),
            table@ == old(table)@,
            es == entry_views(table@),
            forall|j: int|
                0 <= j < i ==> !((#[trigger] es[j]).prefix == f@.import && es[j].service_name
                    == service@),
        decreases table@.len() - i,
    {
        assert(es[i as int] == table@[i as int]@);
        if same(table[i].prefix.as_str(), f.import.as_str()) && same(
            table[i].service_name.as_str(),
            service,
        ) {
            assert(lists_package(es, f@.import, service@));
            return;
        }
        i = i + 1;
    }
    let e = ImportEntry { prefix: f.import.clone(), service_name: service.to_string() };
    table.push(e);
    assert(entry_views(table@) =~= es.push(e@));
}

fn add_packages(table: &mut Vec<ImportEntry>, service: &UtilityService)
    ensures
        entry_views(final(table)@) == with_packages(
            entry_views(old(table)@),
            service@.name,
            service@.features,
        ),
{
    let ghost start = entry_views(table@);
    let ghost fs = service@.features;
    let mut i: usize = 0;
    assert(fs.subrange(0, 0).len() == 0);
    while i < service.features.len()
        invariant
            i <= service.features@.len(),
            fs == service@.features,
            entry_views(table@) == with_packages(start, service@.name, fs.subrange(0, i as int)),
        decreases service.features@.len() - i,
    {
        let ghost u = fs.subrange(0, i + 1);
        assert(u.drop_last() =~= fs.subrange(0, i as int));
        assert(u.last() == service.features@[i as int]@);
        add_package(table, service.name.as_str(), &service.features[i]);
        i = i + 1;
    }
    assert(fs.subrange(0, fs.len() as int) =~= fs);
}

/// The packages of the utility classes of a model, each once for each service.
pub fn import_table(model: &JavaUtilitiesModel) -> (r: Vec<ImportEntry>)
    ensures
        r@.map_values(|e: ImportEntry| e@) == packages_of(model@),
{
    let mut table: Vec<ImportEntry> = Vec::new();
    let ghost ss = model@;
    let mut i: usize = 0;
    assert(entry_views(table@) =~= Seq::<ImportEntryView>::empty());
    assert(ss.subrange(0, 0).len() == 0);
    while i < model.services.len()
        invariant
            i <= model.services@.len(),
            ss == model@,
            entry_views(table@) == packages_of(ss.subrange(0, i as int)),
        decreases model.services@.len() - i,
    {
        let ghost u = ss.subrange(0, i + 1);
        assert(u.drop_last() =~= ss.subrange(0, i as int));
        assert(u.last() == model.services@[i as int]@);
        add_packages(&mut table, &model.services[i]);
        i = i + 1;
    }
    assert(ss.subrange(0, ss.len() as int) =~= ss);
    table
}

} // verus!
