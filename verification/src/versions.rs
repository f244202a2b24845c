//! The versions of the data that the library was built with.

use vstd::prelude::*;

use crate::errors::ExtractorError;
use crate::library_model::ExternalLibraryModel;
use crate::language::Language;
use crate::terraform::model_index::{ModelIndex, ModelIndexError, TERRAFORM_LIBRARY_NAME};
use crate::text::{concat, opt_text, texts};

verus! {

/// Where data was taken from.
#[derive(Debug, PartialEq, Eq)]
pub struct GitSubmoduleMetadata {
    pub git_commit_hash: String,
    pub git_tag: Option<String>,
    pub data_hash: String,
}

/// Whether `e` says that the version of `name` is not known, for the reason `cause`.
pub open spec fn is_version_error(
    e: ExtractorError,
    name: Seq<char>,
    cause: Seq<char>,
) -> bool {
    e matches ExtractorError::SdkProcessing { sdk_name, message, source } && sdk_name@ == name
        && message@ == "Failed to read version information"@ && opt_text(source) == Some(cause)
}

fn version_info(name: &str, parsed: Result<GitSubmoduleMetadata, String>) -> (r: Result<
    GitSubmoduleMetadata,
    ExtractorError,
>)
    ensures
        match parsed {
            Ok(m) => r == Ok::<GitSubmoduleMetadata, ExtractorError>(m),
            Err(cause) => r matches Err(e) && is_version_error(e, name@, cause@),
        },
{
    match parsed {
        Ok(m) => Ok(m),
        Err(cause) => Err(
            ExtractorError::SdkProcessing {
                sdk_name: name.to_string(),
                message: "Failed to read version information".to_string(),
                source: Some(cause),
            },
        ),
    }
}

/// The version of boto3. `parsed` is what the version file holds, or why it cannot be read.
pub fn get_boto3_version_info(parsed: Result<GitSubmoduleMetadata, String>) -> (r: Result<
    GitSubmoduleMetadata,
    ExtractorError,
>)
    ensures
        match parsed {
            Ok(m) => r == Ok::<GitSubmoduleMetadata, ExtractorError>(m),
            Err(cause) => r matches Err(e) && is_version_error(e, "boto3"@, cause@),
        },
{
    version_info("boto3", parsed)
}

/// The version of botocore. `parsed` is what the version file holds, or why it cannot be read.
pub fn get_botocore_version_info(parsed: Result<GitSubmoduleMetadata, String>) -> (r: Result<
    GitSubmoduleMetadata,
    ExtractorError,
>)
    ensures
        match parsed {
            Ok(m) => r == Ok::<GitSubmoduleMetadata, ExtractorError>(m),
            Err(cause) => r matches Err(e) && is_version_error(e, "botocore"@, cause@),
        },
{
    version_info("botocore", parsed)
}

/// Whether `e` says that the version of the Terraform model is not known, for the reason `cause`.
pub open spec fn is_model_version_error(e: ExtractorError, cause: Seq<char>) -> bool {
    e matches ExtractorError::Configuration { message, source } && message@
        == "Failed to read embedded Terraform model version: "@ + cause && source is None
}

fn model_version_error(cause: &str) -> (r: ExtractorError)
    ensures
        is_model_version_error(r, cause@),
{
    ExtractorError::Configuration {
        message: concat("Failed to read embedded Terraform model version: ", cause),
        source: None,
    }
}

/// The version of the Terraform provider that its model was made from, if the model names one.
/// `parsed` is what the model file holds, or why it cannot be read.
pub fn get_terraform_model_version(parsed: Result<ExternalLibraryModel, String>) -> (r: Result<
    Option<String>,
    ExtractorError,
>)
    ensures
        match parsed {
            Err(cause) => r matches Err(e) && is_model_version_error(
                e,
                "Failed to parse terraform-model.json: "@ + cause@,
            ),
            Ok(m) => if m.library_name@ != TERRAFORM_LIBRARY_NAME@ {
                r matches Err(e) && is_model_version_error(
                    e,
                    ModelIndexError::WrongLibrary(m.library_name).text(),
                )
            } else if m.language != Language::Go {
                r matches Err(e) && is_model_version_error(
                    e,
                    ModelIndexError::WrongLanguage(m.language).text(),
                )
            } else {
                r matches Ok(v) && opt_text(v) == opt_text(m.version)
            },
        },
{
    match parsed {
        Err(cause) => Err(
            model_version_error(
                concat("Failed to parse terraform-model.json: ", cause.as_str()).as_str(),
            ),
        ),
        Ok(m) => match ModelIndex::from_model(m) {
            Ok(index) => Ok(index.version()),
            Err(e) => Err(model_version_error(e.describe().as_str())),
        },
    }
}

/// The line that tells of the version of a submodule.
pub open spec fn version_text(name: Seq<char>, m: GitSubmoduleMetadata) -> Seq<char> {
    name + " version: commit_id="@ + m.git_commit_hash@ + ", commit_tag="@ + (match m.git_tag {
        Some(t) => t@,
        None => "None"@,
    }) + ", data_hash="@ + m.data_hash@
}

fn version_line(name: &str, m: &GitSubmoduleMetadata) -> (r: String)
    ensures
        r@ == version_text(name@, *m),
{
    let mut r = concat(name, " version: commit_id=");
    r.append(m.git_commit_hash.as_str());
    r.append(", commit_tag=");
    match &m.git_tag {
        Some(t) => {
            r.append(t.as_str());
        },
        None => {
            r.append("None");
        },
    }
    r.append(", data_hash=");
    r.append(m.data_hash.as_str());
    r
}

/// The lines that tell of the program and, if they are asked for, of its submodules.
pub fn version_lines(
    program_version: &str,
    boto3: &Option<GitSubmoduleMetadata>,
    botocore: &Option<GitSubmoduleMetadata>,
) -> (r: Vec<String>)
    ensures
        texts(r@) == seq!["iam-policy-autopilot "@ + program_version@] + (match boto3 {
            Some(m) => seq![version_text("boto3"@, *m)],
            None => Seq::empty(),
        }) + (match botocore {
            Some(m) => seq![version_text("botocore"@, *m)],
            None => Seq::empty(),
        }),
{
    let mut out: Vec<String> = Vec::new();
    out.push(concat("iam-policy-autopilot ", program_version));
    let ghost first = texts(out@);
    assert(first =~= seq!["iam-policy-autopilot "@ + program_version@]);
    if let Some(m) = boto3 {
        out.push(version_line("boto3", m));
        assert(texts(out@) =~= first + seq![version_text("boto3"@, *m)]);
    } else {
        assert(first + Seq::<Seq<char>>::empty() =~= first);
    }
    let ghost second = texts(out@);
    if let Some(m) = botocore {
        out.push(version_line("botocore", m));
        assert(texts(out@) =~= second + seq![version_text("botocore"@, *m)]);
    } else {
        assert(second + Seq::<Seq<char>>::empty() =~= second);
    }
    out
}

} // verus!
