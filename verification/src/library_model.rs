//! Models of libraries: which AWS operations stand behind the functions of a library.

use vstd::prelude::*;

use crate::language::Language;
use crate::order::{is_total_order, order_of, views, Ranked};
use crate::text::{
    lemma_text_lt_irreflexive, lemma_text_lt_total, lemma_text_lt_transitive, less, opt_text, same,
    text_lt,
};

verus! {

/// An operation of an AWS service.
#[derive(Debug, PartialEq, Eq)]
pub struct SdkOperationMapping {
    /// The name of the service, such as `ssm`.
    pub service: String,
    /// The name of the operation, such as `GetParameter`.
    pub operation: String,
}

pub struct OperationView {
    pub service: Seq<char>,
    pub operation: Seq<char>,
}

impl View for SdkOperationMapping {
    type V = OperationView;

    open spec fn view(&self) -> OperationView {
        OperationView { service: self.service@, operation: self.operation@ }
    }
}

impl Clone for SdkOperationMapping {
    fn clone(&self) -> (r: Self)
        ensures
            r@ == self@,
    {
        SdkOperationMapping { service: self.service.clone(), operation: self.operation.clone() }
    }
}

/// By service, then by operation.
pub open spec fn operation_lt(a: OperationView, b: OperationView) -> bool {
    text_lt(a.service, b.service) || (a.service == b.service && text_lt(a.operation, b.operation))
}

impl Ranked for SdkOperationMapping {
    open spec fn before(a: OperationView, b: OperationView) -> bool {
        operation_lt(a, b)
    }

    fn comes_before(&self, other: &Self) -> (r: bool) {
        proof {
            lemma_text_lt_irreflexive(self.service@);
        }
        if same(self.service.as_str(), other.service.as_str()) {
            less(self.operation.as_str(), other.operation.as_str())
        } else {
            less(self.service.as_str(), other.service.as_str())
        }
    }
}

/// The order of operations is a strict total order.
pub proof fn operations_are_ordered()
    ensures
        is_total_order(order_of::<SdkOperationMapping>()),
{
    let lt = order_of::<SdkOperationMapping>();
    assert forall|a: OperationView| !(#[trigger] lt(a, a)) by {
        lemma_text_lt_irreflexive(a.service);
        lemma_text_lt_irreflexive(a.operation);
    }
    assert forall|a: OperationView, b: OperationView, c: OperationView| #[trigger]
        lt(a, b) && #[trigger] lt(b, c) implies lt(a, c) by {
        if text_lt(a.service, b.service) && text_lt(b.service, c.service) {
            lemma_text_lt_transitive(a.service, b.service, c.service);
        } else if a.service == b.service && b.service == c.service {
            lemma_text_lt_transitive(a.operation, b.operation, c.operation);
        }
    }
    assert forall|a: OperationView, b: OperationView| a == b || #[trigger] lt(a, b) || lt(b, a) by {
        lemma_text_lt_total(a.service, b.service);
        lemma_text_lt_total(a.operation, b.operation);
    }
}

/// How a function of a library is called.
#[derive(Debug, Clone, Copy, PartialEq, Eq, Structural)]
pub enum CallType {
    /// As a function of a module.
    Function,
    /// As a method of a class.
    StaticMethod,
    /// As a method of an object.
    InstanceMethod,
}

/// What tells a function of a library from others.
#[derive(Debug, PartialEq, Eq)]
pub struct CallPatternKey {
    pub module: String,
    pub class_name: Option<String>,
    pub function_name: String,
}

pub struct KeyView {
    pub module: Seq<char>,
    pub class_name: Option<Seq<char>>,
    pub function_name: Seq<char>,
}

impl View for CallPatternKey {
    type V = KeyView;

    open spec fn view(&self) -> KeyView {
        KeyView {
            module: self.module@,
            class_name: opt_text(self.class_name),
            function_name: self.function_name@,
        }
    }
}

impl Clone for CallPatternKey {
    fn clone(&self) -> (r: Self)
        ensures
            r@ == self@,
    {
        CallPatternKey {
            module: self.module.clone(),
            class_name: self.class_name.clone(),
            function_name: self.function_name.clone(),
        }
    }
}

/// Whether the two keys are the same.
pub fn same_key(a: &CallPatternKey, b: &CallPatternKey) -> (r: bool)
    ensures
        r == (a@ == b@),
{
    if !same(a.module.as_str(), b.module.as_str()) || !same(
        a.function_name.as_str(),
        b.function_name.as_str(),
    ) {
        return false;
    }
    match (&a.class_name, &b.class_name) {
        (Some(x), Some(y)) => same(x.as_str(), y.as_str()),
        (None, None) => true,
        _ => false,
    }
}

/// A function of a library with the operations that it calls.
#[derive(Debug, PartialEq, Eq)]
pub struct CallPattern {
    /// The module, such as `aws_lambda_powertools.utilities.parameters`.
    pub module: String,
    /// The class of a method.
    pub class_name: Option<String>,
    pub function_name: String,
    pub call_type: CallType,
    pub sdk_operations: Vec<SdkOperationMapping>,
}

pub struct PatternView {
    pub module: Seq<char>,
    pub class_name: Option<Seq<char>>,
    pub function_name: Seq<char>,
    pub call_type: CallType,
    pub sdk_operations: Seq<OperationView>,
}

impl View for CallPattern {
    type V = PatternView;

    open spec fn view(&self) -> PatternView {
        PatternView {
            module: self.module@,
            class_name: opt_text(self.class_name),
            function_name: self.function_name@,
            call_type: self.call_type,
            sdk_operations: views(self.sdk_operations@),
        }
    }
}

pub fn copy_operations(v: &Vec<SdkOperationMapping>) -> (r: Vec<SdkOperationMapping>)
    ensures
        views(r@) == views(v@),
{
    let r = v.clone();
    assert(views(r@) =~= views(v@));
    r
}

impl Clone for CallPattern {
    fn clone(&self) -> (r: Self)
        ensures
            r@ == self@,
    {
        CallPattern {
            module: self.module.clone(),
            class_name: self.class_name.clone(),
            function_name: self.function_name.clone(),
            call_type: self.call_type,
            sdk_operations: copy_operations(&self.sdk_operations),
        }
    }
}

pub open spec fn pattern_key(p: PatternView) -> KeyView {
    KeyView {
        module: p.module,
        class_name: p.class_name,
        function_name: p.function_name,
    }
}

impl CallPattern {
    /// What tells the function from others.
    pub fn key(&self) -> (r: CallPatternKey)
        ensures
            r@ == pattern_key(self@),
    {
        CallPatternKey {
            module: self.module.clone(),
            class_name: self.class_name.clone(),
            function_name: self.function_name.clone(),
        }
    }
}

/// The model of one library for one language.
#[derive(Debug, PartialEq, Eq)]
pub struct ExternalLibraryModel {
    pub library_name: String,
    pub language: Language,
    /// The version of the library that the model was made from.
    pub version: Option<String>,
    pub call_patterns: Vec<CallPattern>,
}

pub struct ModelView {
    pub library_name: Seq<char>,
    pub language: Language,
    pub version: Option<Seq<char>>,
    pub call_patterns: Seq<PatternView>,
}

impl View for ExternalLibraryModel {
    type V = ModelView;

    open spec fn view(&self) -> ModelView {
        ModelView {
            library_name: self.library_name@,
            language: self.language,
            version: opt_text(self.version),
            call_patterns: views(self.call_patterns@),
        }
    }
}

impl Clone for ExternalLibraryModel {
    fn clone(&self) -> (r: Self)
        ensures
            r@ == self@,
    {
        let call_patterns = self.call_patterns.clone();
        assert(views(call_patterns@) =~= views(self.call_patterns@));
        ExternalLibraryModel {
            library_name: self.library_name.clone(),
            language: self.language,
            version: self.version.clone(),
            call_patterns,
        }
    }
}

/// The models of the language, in their order. A file that holds no model counts for nothing.
pub open spec fn models_for(
    parsed: Seq<Option<ExternalLibraryModel>>,
    language: Language,
) -> Seq<ModelView>
    decreases parsed.len(),
{
    if parsed.len() == 0 {
        Seq::empty()
    } else {
        let rest = models_for(parsed.drop_last(), language);
        match parsed.last() {
            Some(m) => if m.language == language {
                rest.push(m@)
            } else {
                rest
            },
            None => rest,
        }
    }
}

/// The models of the libraries of one language.
#[derive(Debug)]
pub struct LibraryModelRegistry {
    models: Vec<ExternalLibraryModel>,
}

impl View for LibraryModelRegistry {
    type V = Seq<ModelView>;

    closed spec fn view(&self) -> Seq<ModelView> {
        views(self.models@)
    }
}

impl LibraryModelRegistry {
    /// The models of the language among what the model files hold. A file that could not be
    /// parsed is skipped.
    pub fn load(parsed: &Vec<Option<ExternalLibraryModel>>, language: Language) -> (r: Self)
        ensures
            r@ == models_for(parsed@, language),
    {
        let ghost s = parsed@;
        let mut models: Vec<ExternalLibraryModel> = Vec::new();
        let mut i: usize = 0;
        assert(s.subrange(0, 0).len() == 0);
        assert(views(models@) =~= Seq::<ModelView>::empty());
        while i < parsed.len()
            invariant
                i <= parsed@.len(),
                s == parsed@,
                views(models@) == models_for(s.subrange(0, i as int), language),
            decreases parsed@.len() - i,
        {
            let ghost u = s.subrange(0, i + 1);
            let ghost before = views(models@);
            assert(u.drop_last() =~= s.subrange(0, i as int));
            assert(u.last() == parsed@[i as int]);
            if let Some(m) = &parsed[i] {
                if m.language == language {
                    models.push(m.clone());
                    assert(views(models@) =~= before.push(m@));
                }
            }
            i = i + 1;
        }
        assert(s.subrange(0, s.len() as int) =~= s);
        LibraryModelRegistry { models }
    }

    /// All models of the registry.
    pub fn models(&self) -> (r: &Vec<ExternalLibraryModel>)
        ensures
            views(r@) == self@,
    {
        &self.models
    }

    pub fn from_models(models: Vec<ExternalLibraryModel>) -> (r: Self)
        ensures
            r@ == views(models@),
    {
        LibraryModelRegistry { models }
    }
}

} // verus!
