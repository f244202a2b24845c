//! What can go wrong.

use vstd::prelude::*;

verus! {

/// The errors of extraction and policy generation. A `source` is the text of the error behind
/// this one.
#[derive(Debug, PartialEq, Eq)]
pub enum ExtractorError {
    /// A file could not be read or written.
    FileSystem { operation: String, path: String, cause: String },
    /// A text is not the JSON that was expected.
    JsonParsing { context: String, cause: String },
    /// The extension of a file belongs to no supported language.
    UnsupportedFileLanguage { path: String, extension: String },
    /// A language that was asked for is not supported.
    UnsupportedLanguage { language: String },
    /// The configuration cannot be used.
    Configuration { message: String, source: Option<String> },
    /// An input is not valid.
    Validation { message: String, field: Option<String> },
    /// The description of an SDK could not be processed.
    SdkProcessing { sdk_name: String, message: String, source: Option<String> },
    /// Calls could not be extracted from a file.
    MethodExtraction { language: String, path: String, message: String, source: Option<String> },
    /// A map of forwarded operations is missing.
    OperationFasMapNotFound { service_name: String, path: String },
    /// A map of forwarded operations cannot be read.
    OperationFasMapParseError { service_name: String, message: String, source: Option<String> },
    /// A map of actions is missing.
    OperationActionMapNotFound { service_name: String, path: String },
    /// A map of actions cannot be read.
    OperationActionMapParseError { service_name: String, message: String, source: Option<String> },
    /// The reference of a service is missing.
    ServiceReferenceNotFound { service_name: String, path: String },
    /// The reference of a service cannot be read.
    ServiceReferenceParseError { service_name: String, message: String, source: Option<String> },
    /// Resources could not be matched.
    ResourceMatchError { service_name: String, message: String, source: Option<String> },
    /// A call could not be enriched.
    EnrichmentError { service_name: String, message: String, source: Option<String> },
    /// No policy could be generated.
    PolicyGeneration { message: String, source: Option<String> },
    /// Service hints name no known services.
    InvalidServiceHints { suggestions: String },
}

impl ExtractorError {
    /// The text that tells a reader what went wrong.
    pub open spec fn text(self) -> Seq<char> {
        match self {
            ExtractorError::FileSystem { operation, path, cause } => {
                "File system error during "@ + operation@ + " on path '"@ + path@ + "': "@ + cause@
            },
            ExtractorError::JsonParsing { context, cause } => {
                "JSON parsing error in "@ + context@ + ": "@ + cause@
            },
            ExtractorError::UnsupportedFileLanguage { path, extension } => {
                "Unsupported language for file '"@ + path@ + "' with extension '"@ + extension@
                    + "'. Supported languages: Python, TypeScript, JavaScript, Go, Java"@
            },
            ExtractorError::UnsupportedLanguage { .. } => {
                "Unsupported language. Supported languages: Python, TypeScript, JavaScript, Go, Java"@
            },
            ExtractorError::Configuration { message, .. } => "Configuration error: "@ + message@,
            ExtractorError::Validation { message, .. } => "Validation error: "@ + message@,
            ExtractorError::SdkProcessing { sdk_name, message, .. } => {
                "SDK processing error for '"@ + sdk_name@ + "': "@ + message@
            },
            ExtractorError::MethodExtraction { language, path, message, .. } => {
                "Method extraction failed for '"@ + language@ + "' in file '"@ + path@ + "': "@
                    + message@
            },
            ExtractorError::OperationFasMapNotFound { service_name, path } => {
                "OperationFas map not found for service '"@ + service_name@ + "' at path '"@
                    + path@ + "'"@
            },
            ExtractorError::OperationFasMapParseError { service_name, message, .. } => {
                "Failed to parse OperationFas map for service '"@ + service_name@ + "': "@
                    + message@
            },
            ExtractorError::OperationActionMapNotFound { service_name, path } => {
                "OperationAction map not found for service '"@ + service_name@ + "' at path '"@
                    + path@ + "'"@
            },
            ExtractorError::OperationActionMapParseError { service_name, message, .. } => {
                "Failed to parse OperationAction map for service '"@ + service_name@ + "': "@
                    + message@
            },
            ExtractorError::ServiceReferenceNotFound { service_name, path } => {
                "Service Reference not found for service '"@ + service_name@ + "' at path '"@
                    + path@ + "'"@
            },
            ExtractorError::ServiceReferenceParseError { service_name, message, .. } => {
                "Failed to parse Service Reference for service '"@ + service_name@ + "': "@
                    + message@
            },
            ExtractorError::ResourceMatchError { service_name, message, .. } => {
                "Resource matching error for service '"@ + service_name@ + "': "@ + message@
            },
            ExtractorError::EnrichmentError { service_name, message, .. } => {
                "Enrichment error for service '"@ + service_name@ + "': "@ + message@
            },
            ExtractorError::PolicyGeneration { message, .. } => {
                "Policy generation error: "@ + message@
            },
            ExtractorError::InvalidServiceHints { suggestions } => {
                "Provided service hints do not exist:\n"@ + suggestions@
            },
        }
    }

    /// The text that tells a reader what went wrong.
    pub fn describe(&self) -> (r: String)
        ensures
            r@ == self.text(),
    {
        let mut r = String::new();
        match self {
            ExtractorError::FileSystem { operation, path, cause } => {
                r.append("File system error during ");
                r.append(operation.as_str());
                r.append(" on path '");
                r.append(path.as_str());
                r.append("': ");
                r.append(cause.as_str());
            },
            ExtractorError::JsonParsing { context, cause } => {
                r.append("JSON parsing error in ");
                r.append(context.as_str());
                r.append(": ");
                r.append(cause.as_str());
            },
            ExtractorError::UnsupportedFileLanguage { path, extension } => {
                r.append("Unsupported language for file '");
                r.append(path.as_str());
                r.append("' with extension '");
                r.append(extension.as_str());
                r.append("'. Supported languages: Python, TypeScript, JavaScript, Go, Java");
            },
            ExtractorError::UnsupportedLanguage { .. } => {
                r.append("Unsupported language. Supported languages: Python, TypeScript, JavaScript, Go, Java");
            },
            ExtractorError::Configuration { message, .. } => {
                r.append("Configuration error: ");
                r.append(message.as_str());
            },
            ExtractorError::Validation { message, .. } => {
                r.append("Validation error: ");
                r.append(message.as_str());
            },
            ExtractorError::SdkProcessing { sdk_name, message, .. } => {
                r.append("SDK processing error for '");
                r.append(sdk_name.as_str());
                r.append("': ");
                r.append(message.as_str());
            },
            ExtractorError::MethodExtraction { language, path, message, .. } => {
                r.append("Method extraction failed for '");
                r.append(language.as_str());
                r.append("' in file '");
                r.append(path.as_str());
                r.append("': ");
                r.append(message.as_str());
            },
            ExtractorError::OperationFasMapNotFound { service_name, path } => {
                r.append("OperationFas map not found for service '");
                r.append(service_name.as_str());
                r.append("' at path '");
                r.append(path.as_str());
                r.append("'");
            },
            ExtractorError::OperationFasMapParseError { service_name, message, .. } => {
                r.append("Failed to parse OperationFas map for service '");
                r.append(service_name.as_str());
                r.append("': ");
                r.append(message.as_str());
            },
            ExtractorError::OperationActionMapNotFound { service_name, path } => {
                r.append("OperationAction map not found for service '");
                r.append(service_name.as_str());
                r.append("' at path '");
                r.append(path.as_str());
                r.append("'");
            },
            ExtractorError::OperationActionMapParseError { service_name, message, .. } => {
                r.append("Failed to parse OperationAction map for service '");
                r.append(service_name.as_str());
                r.append("': ");
                r.append(message.as_str());
            },
            ExtractorError::ServiceReferenceNotFound { service_name, path } => {
                r.append("Service Reference not found for service '");
                r.append(service_name.as_str());
                r.append("' at path '");
                r.append(path.as_str());
                r.append("'");
            },
            ExtractorError::ServiceReferenceParseError { service_name, message, .. } => {
                r.append("Failed to parse Service Reference for service '");
                r.append(service_name.as_str());
                r.append("': ");
                r.append(message.as_str());
            },
            ExtractorError::ResourceMatchError { service_name, message, .. } => {
                r.append("Resource matching error for service '");
                r.append(service_name.as_str());
                r.append("': ");
                r.append(message.as_str());
            },
            ExtractorError::EnrichmentError { service_name, message, .. } => {
                r.append("Enrichment error for service '");
                r.append(service_name.as_str());
                r.append("': ");
                r.append(message.as_str());
            },
            ExtractorError::PolicyGeneration { message, .. } => {
                r.append("Policy generation error: ");
                r.append(message.as_str());
            },
            ExtractorError::InvalidServiceHints { suggestions } => {
                r.append("Provided service hints do not exist:\n");
                r.append(suggestions.as_str());
            },
        }
        assert(r@ =~= self.text());
        r
    }

    pub fn file_system(operation: String, path: String, cause: String) -> (r: Self)
        ensures
            r == (ExtractorError::FileSystem { operation, path, cause }),
    {
        ExtractorError::FileSystem { operation, path, cause }
    }

    /// The error of an I/O operation of which only the cause is known.
    pub fn unknown_file_system(cause: String) -> (r: Self)
        ensures
            r matches ExtractorError::FileSystem { operation, path, cause: c } && operation@
                == "unknown operation"@ && path@ == "unknown path"@ && c == cause,
    {
        ExtractorError::FileSystem {
            operation: "unknown operation".to_string(),
            path: "unknown path".to_string(),
            cause,
        }
    }

    /// The error of reading JSON of which only the cause is known.
    pub fn unknown_json(cause: String) -> (r: Self)
        ensures
            r matches ExtractorError::JsonParsing { context, cause: c } && context@
                == "unknown context"@ && c == cause,
    {
        ExtractorError::JsonParsing { context: "unknown context".to_string(), cause }
    }

    pub fn unsupported_language_override(language: String) -> (r: Self)
        ensures
            r == (ExtractorError::UnsupportedLanguage { language }),
    {
        ExtractorError::UnsupportedLanguage { language }
    }

    pub fn validation(message: String) -> (r: Self)
        ensures
            r == (ExtractorError::Validation { message, field: None }),
    {
        ExtractorError::Validation { message, field: None }
    }

    pub fn sdk_processing_with_source(
        sdk_name: String,
        message: String,
        source: String,
    ) -> (r: Self)
        ensures
            r == (ExtractorError::SdkProcessing { sdk_name, message, source: Some(source) }),
    {
        ExtractorError::SdkProcessing { sdk_name, message, source: Some(source) }
    }

    pub fn method_extraction(language: String, path: String, message: String) -> (r: Self)
        ensures
            r == (ExtractorError::MethodExtraction { language, path, message, source: None }),
    {
        ExtractorError::MethodExtraction { language, path, message, source: None }
    }

    pub fn service_reference_parse_error_with_source(
        service_name: String,
        message: String,
        source: String,
    ) -> (r: Self)
        ensures
            r == (ExtractorError::ServiceReferenceParseError { service_name, message, source: Some(source) }),
    {
        ExtractorError::ServiceReferenceParseError { service_name, message, source: Some(source) }
    }

    pub fn enrichment_error(service_name: String, message: String) -> (r: Self)
        ensures
            r == (ExtractorError::EnrichmentError { service_name, message, source: None }),
    {
        ExtractorError::EnrichmentError { service_name, message, source: None }
    }

    pub fn policy_generation(message: String) -> (r: Self)
        ensures
            r == (ExtractorError::PolicyGeneration { message, source: None }),
    {
        ExtractorError::PolicyGeneration { message, source: None }
    }

    pub fn invalid_service_hints(suggestions: String) -> (r: Self)
        ensures
            r == (ExtractorError::InvalidServiceHints { suggestions }),
    {
        ExtractorError::InvalidServiceHints { suggestions }
    }
}

} // verus!
