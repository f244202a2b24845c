//! What can go wrong when a model of a library is generated.

use vstd::prelude::*;

use crate::text::{join, joined, texts};

verus! {

/// The text as Rust shows it for debugging: in quotes, with escapes.
pub uninterp spec fn quoted(s: Seq<char>) -> Seq<char>;

/// The `Debug` form of `str` in the standard library: the text in double quotes, with escapes for
/// the characters that cannot stand there. The result depends on the text alone.
#[verifier::external_body]
pub(crate) fn quote(s: &str) -> (r: String)
    ensures
        r@ == quoted(s@),
{
    format!("{s:?}")
}

/// Each text as it is shown for debugging.
pub open spec fn all_quoted(v: Seq<Seq<char>>) -> Seq<Seq<char>> {
    v.map_values(|s: Seq<char>| quoted(s))
}

/// A list of texts as it is shown for debugging.
pub open spec fn quoted_list(v: Seq<Seq<char>>) -> Seq<char> {
    "["@ + joined(all_quoted(v), ", "@) + "]"@
}

/// A set of texts as it is shown for debugging.
pub open spec fn quoted_set(v: Seq<Seq<char>>) -> Seq<char> {
    "{"@ + joined(all_quoted(v), ", "@) + "}"@
}

fn quote_all(v: &Vec<String>) -> (r: String)
    ensures
        r@ == joined(all_quoted(texts(v@)), ", "@),
{
    let ghost s = texts(v@);
    let mut out: Vec<String> = Vec::new();
    let mut i: usize = 0;
    assert(texts(out@) =~= all_quoted(s.subrange(0, 0)));
    while i < v.len()
        invariant
            i <= v@.len(),
            s == texts(v@),
            texts(out@) == all_quoted(s.subrange(0, i as int)),
        decreases v@.len() - i,
    {
        let ghost before = texts(out@);
        out.push(quote(v[i].as_str()));
        proof {
            assert(texts(out@) =~= before.push(quoted(s[i as int])));
            assert(all_quoted(s.subrange(0, i + 1)) =~= before.push(quoted(s[i as int])));
        }
        i = i + 1;
    }
    assert(s.subrange(0, s.len() as int) =~= s);
    join(&out, ", ")
}

/// The errors of model generation.
#[derive(Debug)]
pub enum ModelError {
    /// A symbol does not have the form `pkg.func`.
    InvalidSymbol { symbol: String },
    /// The package of a symbol is empty.
    EmptyPackage { symbol: String },
    /// The function of a symbol is empty.
    EmptyFunction { symbol: String },
    /// No function has the name of the symbol.
    UnknownFunction { function: String, symbol: String },
    /// Functions of that name stand only in other packages.
    WrongPackage { function: String, package: String, symbol: String, found: Vec<String> },
    /// Several functions of the package have that name.
    AmbiguousSymbol { symbol: String, function: String, package: String, found: Vec<String> },
    /// An entry point does not have the form `file:line:column`.
    InvalidEntryPoint { entry: String },
    /// The column of an entry point is no number.
    InvalidColumn { entry: String },
    /// The line of an entry point is no number.
    InvalidLine { entry: String },
    /// The file of an entry point is the end of several paths.
    AmbiguousFile { file: String, entry: String, found: Vec<String> },
    /// No function stands at an entry point.
    NoFunctionAt { entry: String, file: String, available: Vec<String> },
    /// The symbol of an entry point could not be resolved.
    UnresolvedSymbol { symbol: String, cause: String },
    /// No model can be made for the language.
    UnsupportedLanguage { language: String },
    /// There are no source files.
    NoSourceFiles,
    /// A source file of a job is outside the workspace.
    OutsideWorkspace { job: String, root: String, file: String },
    /// The language server has stopped before a job.
    ServerStopped { job: String },
}

pub enum ModelErrorView {
    InvalidSymbol { symbol: Seq<char> },
    EmptyPackage { symbol: Seq<char> },
    EmptyFunction { symbol: Seq<char> },
    UnknownFunction { function: Seq<char>, symbol: Seq<char> },
    WrongPackage { function: Seq<char>, package: Seq<char>, symbol: Seq<char>, found: Seq<Seq<char>> },
    AmbiguousSymbol { symbol: Seq<char>, function: Seq<char>, package: Seq<char>, found: Seq<Seq<char>> },
    InvalidEntryPoint { entry: Seq<char> },
    InvalidColumn { entry: Seq<char> },
    InvalidLine { entry: Seq<char> },
    AmbiguousFile { file: Seq<char>, entry: Seq<char>, found: Seq<Seq<char>> },
    NoFunctionAt { entry: Seq<char>, file: Seq<char>, available: Seq<Seq<char>> },
    UnresolvedSymbol { symbol: Seq<char>, cause: Seq<char> },
    UnsupportedLanguage { language: Seq<char> },
    NoSourceFiles,
    OutsideWorkspace { job: Seq<char>, root: Seq<char>, file: Seq<char> },
    ServerStopped { job: Seq<char> },
}

impl View for ModelError {
    type V = ModelErrorView;

    open spec fn view(&self) -> ModelErrorView {
        match self {
            ModelError::InvalidSymbol { symbol } => ModelErrorView::InvalidSymbol {
                symbol: symbol@,
            },
            ModelError::EmptyPackage { symbol } => ModelErrorView::EmptyPackage {
                symbol: symbol@,
            },
            ModelError::EmptyFunction { symbol } => ModelErrorView::EmptyFunction {
                symbol: symbol@,
            },
            ModelError::UnknownFunction { function, symbol } => ModelErrorView::UnknownFunction {
                function: function@,
                symbol: symbol@,
            },
            ModelError::WrongPackage { function, package, symbol, found } => ModelErrorView::WrongPackage {
                function: function@,
                package: package@,
                symbol: symbol@,
                found: texts(found@),
            },
            ModelError::AmbiguousSymbol { symbol, function, package, found } => ModelErrorView::AmbiguousSymbol {
                symbol: symbol@,
                function: function@,
                package: package@,
                found: texts(found@),
            },
            ModelError::InvalidEntryPoint { entry } => ModelErrorView::InvalidEntryPoint {
                entry: entry@,
            },
            ModelError::InvalidColumn { entry } => ModelErrorView::InvalidColumn {
                entry: entry@,
            },
            ModelError::InvalidLine { entry } => ModelErrorView::InvalidLine {
                entry: entry@,
            },
            ModelError::AmbiguousFile { file, entry, found } => ModelErrorView::AmbiguousFile {
                file: file@,
                entry: entry@,
                found: texts(found@),
            },
            ModelError::NoFunctionAt { entry, file, available } => ModelErrorView::NoFunctionAt {
                entry: entry@,
                file: file@,
                available: texts(available@),
            },
            ModelError::UnresolvedSymbol { symbol, cause } => ModelErrorView::UnresolvedSymbol {
                symbol: symbol@,
                cause: cause@,
            },
            ModelError::UnsupportedLanguage { language } => ModelErrorView::UnsupportedLanguage {
                language: language@,
            },
            ModelError::NoSourceFiles => ModelErrorView::NoSourceFiles,
            ModelError::OutsideWorkspace { job, root, file } => ModelErrorView::OutsideWorkspace {
                job: job@,
                root: root@,
                file: file@,
            },
            ModelError::ServerStopped { job } => ModelErrorView::ServerStopped {
                job: job@,
            },
        }
    }
}

impl ModelErrorView {
    /// The text that tells a reader what went wrong.
    pub open spec fn text(self) -> Seq<char> {
        match self {
            ModelErrorView::InvalidSymbol { symbol } => "Invalid Go symbol '"@
                + symbol
                + "', expected 'pkg.func' (e.g. s3.resourceBucketCreate)"@,
            ModelErrorView::EmptyPackage { symbol } => "Invalid Go symbol '"@
                + symbol
                + "': empty package name"@,
            ModelErrorView::EmptyFunction { symbol } => "Invalid Go symbol '"@
                + symbol
                + "': empty function name"@,
            ModelErrorView::UnknownFunction { function, symbol } => "No function named '"@
                + function
                + "' found in the call graph for symbol '"@
                + symbol
                + "'"@,
            ModelErrorView::WrongPackage { function, package, symbol, found } => "Function '"@
                + function
                + "' exists but not in package '"@
                + package
                + "' for symbol '"@
                + symbol
                + "'. Found in: "@
                + quoted_list(found),
            ModelErrorView::AmbiguousSymbol { symbol, function, package, found } => "Ambiguous symbol '"@
                + symbol
                + "': '"@
                + function
                + "' matches multiple nodes in package '"@
                + package
                + "': "@
                + quoted_list(found),
            ModelErrorView::InvalidEntryPoint { entry } => "Invalid entry point format '"@
                + entry
                + "', expected 'file:line:column' (e.g. handler.go:14:1)"@,
            ModelErrorView::InvalidColumn { entry } => "Invalid column in entry point '"@
                + entry
                + "'"@,
            ModelErrorView::InvalidLine { entry } => "Invalid line number in entry point '"@
                + entry
                + "'"@,
            ModelErrorView::AmbiguousFile { file, entry, found } => "Ambiguous file path '"@
                + file
                + "' in entry point '"@
                + entry
                + "', matches multiple files: "@
                + quoted_set(found)
                + ". Use a longer path to disambiguate."@,
            ModelErrorView::NoFunctionAt { entry, file, available } => "No function declaration at "@
                + entry
                + ". Available functions in "@
                + file
                + ": "@
                + quoted_list(available),
            ModelErrorView::UnresolvedSymbol { symbol, .. } => "Failed to resolve entry point symbol '"@
                + symbol
                + "'"@,
            ModelErrorView::UnsupportedLanguage { language } => "Model generation is not yet supported for "@
                + language,
            ModelErrorView::NoSourceFiles => "No source files provided"@,
            ModelErrorView::OutsideWorkspace { job, root, file } => "Job '"@
                + job
                + "' has source file outside workspace root "@
                + root
                + ": "@
                + file,
            ModelErrorView::ServerStopped { job } => "Language server is no longer running (failed before job '"@
                + job
                + "')"@,
        }
    }
}

impl ModelError {
    /// The text that tells a reader what went wrong.
    pub fn describe(&self) -> (r: String)
        ensures
            r@ == self@.text(),
    {
        let mut r = String::new();
        match self {
            ModelError::InvalidSymbol { symbol } => {
                r.append("Invalid Go symbol '");
                r.append(symbol.as_str());
                r.append("', expected 'pkg.func' (e.g. s3.resourceBucketCreate)");
                assert(r@ =~= self@.text());
            },
            ModelError::EmptyPackage { symbol } => {
                r.append("Invalid Go symbol '");
                r.append(symbol.as_str());
                r.append("': empty package name");
                assert(r@ =~= self@.text());
            },
            ModelError::EmptyFunction { symbol } => {
                r.append("Invalid Go symbol '");
                r.append(symbol.as_str());
                r.append("': empty function name");
                assert(r@ =~= self@.text());
            },
            ModelError::UnknownFunction { function, symbol } => {
                r.append("No function named '");
                r.append(function.as_str());
                r.append("' found in the call graph for symbol '");
                r.append(symbol.as_str());
                r.append("'");
                assert(r@ =~= self@.text());
            },
            ModelError::WrongPackage { function, package, symbol, found } => {
                r.append("Function '");
                r.append(function.as_str());
                r.append("' exists but not in package '");
                r.append(package.as_str());
                r.append("' for symbol '");
                r.append(symbol.as_str());
                r.append("'. Found in: ");
                r.append("[");
                r.append(quote_all(found).as_str());
                r.append("]");
                assert(r@ =~= self@.text());
            },
            ModelError::AmbiguousSymbol { symbol, function, package, found } => {
                r.append("Ambiguous symbol '");
                r.append(symbol.as_str());
                r.append("': '");
                r.append(function.as_str());
                r.append("' matches multiple nodes in package '");
                r.append(package.as_str());
                r.append("': ");
                r.append("[");
                r.append(quote_all(found).as_str());
                r.append("]");
                assert(r@ =~= self@.text());
            },
            ModelError::InvalidEntryPoint { entry } => {
                r.append("Invalid entry point format '");
                r.append(entry.as_str());
                r.append("', expected 'file:line:column' (e.g. handler.go:14:1)");
                assert(r@ =~= self@.text());
            },
            ModelError::InvalidColumn { entry } => {
                r.append("Invalid column in entry point '");
                r.append(entry.as_str());
                r.append("'");
                assert(r@ =~= self@.text());
            },
            ModelError::InvalidLine { entry } => {
                r.append("Invalid line number in entry point '");
                r.append(entry.as_str());
                r.append("'");
                assert(r@ =~= self@.text());
            },
            ModelError::AmbiguousFile { file, entry, found } => {
                r.append("Ambiguous file path '");
                r.append(file.as_str());
                r.append("' in entry point '");
                r.append(entry.as_str());
                r.append("', matches multiple files: ");
                r.append("{");
                r.append(quote_all(found).as_str());
                r.append("}");
                r.append(". Use a longer path to disambiguate.");
                assert(r@ =~= self@.text());
            },
            ModelError::NoFunctionAt { entry, file, available } => {
                r.append("No function declaration at ");
                r.append(entry.as_str());
                r.append(". Available functions in ");
                r.append(file.as_str());
                r.append(": ");
                r.append("[");
                r.append(quote_all(available).as_str());
                r.append("]");
                assert(r@ =~= self@.text());
            },
            ModelError::UnresolvedSymbol { symbol, .. } => {
                r.append("Failed to resolve entry point symbol '");
                r.append(symbol.as_str());
                r.append("'");
                assert(r@ =~= self@.text());
            },
            ModelError::UnsupportedLanguage { language } => {
                r.append("Model generation is not yet supported for ");
                r.append(language.as_str());
                assert(r@ =~= self@.text());
            },
            ModelError::NoSourceFiles => {
                r.append("No source files provided");
                assert(r@ =~= self@.text());
            },
            ModelError::OutsideWorkspace { job, root, file } => {
                r.append("Job '");
                r.append(job.as_str());
                r.append("' has source file outside workspace root ");
                r.append(root.as_str());
                r.append(": ");
                r.append(file.as_str());
                assert(r@ =~= self@.text());
            },
            ModelError::ServerStopped { job } => {
                r.append("Language server is no longer running (failed before job '");
                r.append(job.as_str());
                r.append("')");
                assert(r@ =~= self@.text());
            },
        }
        r
    }
}

} // verus!
