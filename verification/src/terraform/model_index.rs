//! The operations that the functions of the Terraform provider call.

use vstd::prelude::*;

use crate::language::{language_title, Language};
use crate::library_model::{
    copy_operations, pattern_key, same_key, CallPattern, CallPatternKey, ExternalLibraryModel,
    KeyView, OperationView, PatternView, SdkOperationMapping,
};
use crate::model_error::{quote, quoted};
use crate::order::views;
use crate::text::{concat, opt_text, same};

verus! {

/// The name of the library that the model is of.
pub const TERRAFORM_LIBRARY_NAME: &'static str = "terraform-provider-aws";

/// Why a model is not that of the Terraform provider.
#[derive(Debug)]
pub enum ModelIndexError {
    /// It is the model of another library.
    WrongLibrary(String),
    /// It is the model for another language.
    WrongLanguage(Language),
}

impl ModelIndexError {
    /// The text that tells a reader what went wrong.
    pub open spec fn text(self) -> Seq<char> {
        match self {
            ModelIndexError::WrongLibrary(name) => "Unexpected terraform model library_name: "@
                + quoted(name@) + " (expected "@ + quoted(TERRAFORM_LIBRARY_NAME@) + ")"@,
            ModelIndexError::WrongLanguage(l) => "Unexpected terraform model language: "@
                + language_title(l) + " (expected Go)"@,
        }
    }

    /// The text that tells a reader what went wrong.
    pub fn describe(&self) -> (r: String)
        ensures
            r@ == self.text(),
    {
        match self {
            ModelIndexError::WrongLibrary(name) => {
                let mut r = concat(
                    "Unexpected terraform model library_name: ",
                    quote(name.as_str()).as_str(),
                );
                r.append(" (expected ");
                r.append(quote(TERRAFORM_LIBRARY_NAME).as_str());
                r.append(")");
                r
            },
            ModelIndexError::WrongLanguage(l) => {
                let mut r = concat("Unexpected terraform model language: ", l.title());
                r.append(" (expected Go)");
                r
            },
        }
    }
}

/// The operations of all patterns with the key, one behind the other; none if no pattern has it.
pub open spec fn operations_for(patterns: Seq<PatternView>, key: KeyView) -> Option<
    Seq<OperationView>,
>
    decreases patterns.len(),
{
    if patterns.len() == 0 {
        None
    } else {
        let rest = operations_for(patterns.drop_last(), key);
        let own = patterns.last().sdk_operations;
        if pattern_key(patterns.last()) == key {
            match rest {
                Some(v) => Some(v + own),
                None => Some(own),
            }
        } else {
            rest
        }
    }
}

/// The model of the Terraform provider.
#[derive(Debug)]
pub struct ModelIndex {
    patterns: Vec<CallPattern>,
    version: Option<String>,
}

pub struct ModelIndexView {
    pub patterns: Seq<PatternView>,
    pub version: Option<Seq<char>>,
}

impl View for ModelIndex {
    type V = ModelIndexView;

    closed spec fn view(&self) -> ModelIndexView {
        ModelIndexView { patterns: views(self.patterns@), version: opt_text(self.version) }
    }
}

pub open spec fn opt_operations(o: Option<Vec<SdkOperationMapping>>) -> Option<Seq<OperationView>> {
    match o {
        Some(v) => Some(views(v@)),
        None => None,
    }
}

impl ModelIndex {
    /// The index of a model that is that of the Terraform provider.
    pub fn from_model(model: ExternalLibraryModel) -> (r: Result<Self, ModelIndexError>)
        ensures
            match r {
                Ok(i) => model.library_name@ == TERRAFORM_LIBRARY_NAME@ && model.language
                    == Language::Go && i@ == (ModelIndexView {
                    patterns: model@.call_patterns,
                    version: model@.version,
                }),
                Err(e) => if model.library_name@ != TERRAFORM_LIBRARY_NAME@ {
                    e == ModelIndexError::WrongLibrary(model.library_name)
                } else {
                    model.language != Language::Go && e == ModelIndexError::WrongLanguage(
                        model.language,
                    )
                },
            },
    {
        if !same(model.library_name.as_str(), TERRAFORM_LIBRARY_NAME) {
            return Err(ModelIndexError::WrongLibrary(model.library_name));
        }
        if model.language != Language::Go {
            return Err(ModelIndexError::WrongLanguage(model.language));
        }
        Ok(ModelIndex { patterns: model.call_patterns, version: model.version })
    }

    /// The operations that the function with the key calls, if the model has it.
    pub fn operations(&self, key: &CallPatternKey) -> (r: Option<Vec<SdkOperationMapping>>)
        ensures
            opt_operations(r) == operations_for(self@.patterns, key@),
    {
        let ghost s = self@.patterns;
        let mut out: Option<Vec<SdkOperationMapping>> = None;
        let mut i: usize = 0;
        assert(s.subrange(0, 0).len() == 0);
        while i < self.patterns.len()
            invariant
                i <= self.patterns@.len(),
                s == views(self.patterns@),
                opt_operations(out) == operations_for(s.subrange(0, i as int), key@),
            decreases self.patterns@.len() - i,
        {
            let ghost u = s.subrange(0, i + 1);
            assert(u.drop_last() =~= s.subrange(0, i as int));
            assert(u.last() == self.patterns@[i as int]@);
            if same_key(&self.patterns[i].key(), key) {
                let mut own = copy_operations(&self.patterns[i].sdk_operations);
                let ghost o = views(own@);
                match out {
                    Some(mut v) => {
                        let ghost w = views(v@);
                        v.append(&mut own);
                        assert(views(v@) =~= w + o);
                        out = Some(v);
                    },
                    None => {
                        out = Some(own);
                    },
                }
            }
            i = i + 1;
        }
        assert(s.subrange(0, s.len() as int) =~= s);
        out
    }

    /// The version of the provider that the model was made from.
    pub fn version(&self) -> (r: Option<String>)
        ensures
            opt_text(r) == self@.version,
    {
        self.version.clone()
    }
}

} // verus!
