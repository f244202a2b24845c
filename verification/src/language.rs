//! The programming languages of source files.

use vstd::prelude::*;

use crate::text::same;

verus! {

#[derive(Debug, Clone, Copy, PartialEq, Eq, Structural)]
pub enum Language {
    Python,
    JavaScript,
    TypeScript,
    Go,
    Java,
}

/// The name of a language.
pub open spec fn language_name(l: Language) -> Seq<char> {
    match l {
        Language::Python => "python"@,
        Language::JavaScript => "javascript"@,
        Language::TypeScript => "typescript"@,
        Language::Go => "go"@,
        Language::Java => "java"@,
    }
}

/// The name of a language in rules and in messages for developers.
pub open spec fn language_title(l: Language) -> Seq<char> {
    match l {
        Language::Python => "Python"@,
        Language::JavaScript => "JavaScript"@,
        Language::TypeScript => "TypeScript"@,
        Language::Go => "Go"@,
        Language::Java => "Java"@,
    }
}

/// The language that a name or a common abbreviation of it stands for.
pub open spec fn language_named(s: Seq<char>) -> Option<Language> {
    if s == "python"@ || s == "py"@ {
        Some(Language::Python)
    } else if s == "javascript"@ || s == "js"@ {
        Some(Language::JavaScript)
    } else if s == "typescript"@ || s == "ts"@ {
        Some(Language::TypeScript)
    } else if s == "go"@ {
        Some(Language::Go)
    } else if s == "java"@ {
        Some(Language::Java)
    } else {
        None
    }
}

impl Language {
    /// The name of the language.
    pub fn as_str(&self) -> (r: &'static str)
        ensures
            r@ == language_name(*self),
    {
        match self {
            Language::Python => "python",
            Language::JavaScript => "javascript",
            Language::TypeScript => "typescript",
            Language::Go => "go",
            Language::Java => "java",
        }
    }

    /// The name of the language in rules and in messages for developers.
    pub fn title(&self) -> (r: &'static str)
        ensures
            r@ == language_title(*self),
    {
        match self {
            Language::Python => "Python",
            Language::JavaScript => "JavaScript",
            Language::TypeScript => "TypeScript",
            Language::Go => "Go",
            Language::Java => "Java",
        }
    }

    /// The name of the language, as a text of its own.
    pub fn to_string(&self) -> (r: String)
        ensures
            r@ == language_name(*self),
    {
        crate::text::owned(self.as_str())
    }

    /// The language that `s` names, or `s` itself if it names none.
    pub fn try_from_str(s: &str) -> (r: Result<Language, String>)
        ensures
            match r {
                Ok(l) => language_named(s@) == Some(l),
                Err(e) => language_named(s@) is None && e@ == s@,
            },
    {
        if same(s, "python") || same(s, "py") {
            Ok(Language::Python)
        } else if same(s, "javascript") || same(s, "js") {
            Ok(Language::JavaScript)
        } else if same(s, "typescript") || same(s, "ts") {
            Ok(Language::TypeScript)
        } else if same(s, "go") {
            Ok(Language::Go)
        } else if same(s, "java") {
            Ok(Language::Java)
        } else {
            Err(s.to_string())
        }
    }
}

/// The name of a language stands for that language.
pub proof fn names_are_recognised(l: Language)
    ensures
        language_named(language_name(l)) == Some(l),
{
    reveal_strlit("python");
    reveal_strlit("py");
    reveal_strlit("javascript");
    reveal_strlit("js");
    reveal_strlit("typescript");
    reveal_strlit("ts");
    reveal_strlit("go");
    reveal_strlit("java");
    assert("python"@.len() == 6 && "py"@.len() == 2 && "javascript"@.len() == 10 && "js"@.len()
        == 2 && "typescript"@.len() == 10 && "ts"@.len() == 2 && "go"@.len() == 2 && "java"@.len()
        == 4);
    assert("javascript"@[0] != "typescript"@[0]);
    assert("go"@[0] != "py"@[0] && "go"@[0] != "js"@[0] && "go"@[0] != "ts"@[0]);
}

/// A source file with its text.
#[derive(Debug)]
pub struct SourceFile {
    pub path: String,
    pub content: String,
    pub language: Language,
}

impl SourceFile {
    pub fn with_language(path: String, content: String, language: Language) -> (r: Self)
        ensures
            r.path == path,
            r.content == content,
            r.language == language,
    {
        SourceFile { path, content, language }
    }
}

} // verus!
