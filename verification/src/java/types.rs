//! What extraction finds in Java source files, before it is known which operations are meant.

use vstd::prelude::*;

use crate::sdk::{
    copy_parameters, parameter_views, Location, LocationView, Parameter, ParameterView,
};
use crate::text::opt_text;

verus! {

/// Where the receiver variable of a call is declared.
#[derive(Debug, PartialEq, Eq)]
pub struct ReceiverDeclaration {
    /// The initializer of a local variable, field or resource, or the whole text of a parameter.
    pub expr: String,
    /// The declared type; `None` where it is inferred.
    pub declared_type: Option<String>,
    /// The place of the declaration.
    pub location: Location,
}

pub struct DeclarationView {
    pub expr: Seq<char>,
    pub declared_type: Option<Seq<char>>,
    pub location: LocationView,
}

impl View for ReceiverDeclaration {
    type V = DeclarationView;

    open spec fn view(&self) -> DeclarationView {
        DeclarationView {
            expr: self.expr@,
            declared_type: opt_text(self.declared_type),
            location: self.location@,
        }
    }
}

impl Clone for ReceiverDeclaration {
    fn clone(&self) -> (r: Self)
        ensures
            r@ == self@,
    {
        ReceiverDeclaration {
            expr: self.expr.clone(),
            declared_type: self.declared_type.clone(),
            location: self.location.clone(),
        }
    }
}

pub open spec fn opt_declaration(o: Option<ReceiverDeclaration>) -> Option<DeclarationView> {
    match o {
        Some(d) => Some(d@),
        None => None,
    }
}

fn copy_declaration(o: &Option<ReceiverDeclaration>) -> (r: Option<ReceiverDeclaration>)
    ensures
        opt_declaration(r) == opt_declaration(*o),
{
    match o {
        Some(d) => Some(d.clone()),
        None => None,
    }
}

/// The type with which the receiver of a call is declared, if that is known.
pub open spec fn receiver_type_of(o: Option<DeclarationView>) -> Option<Seq<char>> {
    match o {
        Some(d) => d.declared_type,
        None => None,
    }
}

/// The type with which the receiver of a call is declared, if that is known.
pub fn receiver_type<'a>(o: &'a Option<ReceiverDeclaration>) -> (r: Option<&'a String>)
    ensures
        match r {
            Some(t) => receiver_type_of(opt_declaration(*o)) == Some(t@),
            None => receiver_type_of(opt_declaration(*o)) is None,
        },
{
    match o {
        Some(d) => match &d.declared_type {
            Some(t) => Some(t),
            None => None,
        },
        None => None,
    }
}

/// An import of a class of an AWS service.
#[derive(Debug, PartialEq, Eq)]
pub struct Import {
    /// The import path.
    pub expr: String,
    /// The name of the service.
    pub service: String,
    pub location: Location,
    /// Whether it is an `import static`.
    pub is_static: bool,
}

pub struct ImportView {
    pub expr: Seq<char>,
    pub service: Seq<char>,
    pub location: LocationView,
    pub is_static: bool,
}

impl View for Import {
    type V = ImportView;

    open spec fn view(&self) -> ImportView {
        ImportView {
            expr: self.expr@,
            service: self.service@,
            location: self.location@,
            is_static: self.is_static,
        }
    }
}

impl Clone for Import {
    fn clone(&self) -> (r: Self)
        ensures
            r@ == self@,
    {
        Import {
            expr: self.expr.clone(),
            service: self.service.clone(),
            location: self.location.clone(),
            is_static: self.is_static,
        }
    }
}

/// An import from an SDK package that belongs to no single service package.
#[derive(Debug, PartialEq, Eq)]
pub struct UtilityImport {
    /// The import path.
    pub expr: String,
    /// The service key in the model of utilities.
    pub utility_name: String,
    /// The last segment of the path.
    pub class_name: String,
    pub location: Location,
}

pub struct UtilityImportView {
    pub expr: Seq<char>,
    pub utility_name: Seq<char>,
    pub class_name: Seq<char>,
    pub location: LocationView,
}

impl View for UtilityImport {
    type V = UtilityImportView;

    open spec fn view(&self) -> UtilityImportView {
        UtilityImportView {
            expr: self.expr@,
            utility_name: self.utility_name@,
            class_name: self.class_name@,
            location: self.location@,
        }
    }
}

impl Clone for UtilityImport {
    fn clone(&self) -> (r: Self)
        ensures
            r@ == self@,
    {
        UtilityImport {
            expr: self.expr.clone(),
            utility_name: self.utility_name.clone(),
            class_name: self.class_name.clone(),
            location: self.location.clone(),
        }
    }
}

/// A call `receiver.method(args)`.
#[derive(Debug, PartialEq, Eq)]
pub struct Call {
    /// The text of the call.
    pub expr: String,
    /// The text of the receiver.
    pub receiver: Option<String>,
    pub method: String,
    pub parameters: Vec<Parameter>,
    pub location: Location,
    /// Where the receiver variable is declared, if that is known.
    pub receiver_declaration: Option<ReceiverDeclaration>,
}

pub struct CallView {
    pub expr: Seq<char>,
    pub receiver: Option<Seq<char>>,
    pub method: Seq<char>,
    pub parameters: Seq<ParameterView>,
    pub location: LocationView,
    pub receiver_declaration: Option<DeclarationView>,
}

impl View for Call {
    type V = CallView;

    open spec fn view(&self) -> CallView {
        CallView {
            expr: self.expr@,
            receiver: opt_text(self.receiver),
            method: self.method@,
            parameters: parameter_views(self.parameters@),
            location: self.location@,
            receiver_declaration: opt_declaration(self.receiver_declaration),
        }
    }
}

impl Clone for Call {
    fn clone(&self) -> (r: Self)
        ensures
            r@ == self@,
    {
        Call {
            expr: self.expr.clone(),
            receiver: self.receiver.clone(),
            method: self.method.clone(),
            parameters: copy_parameters(&self.parameters),
            location: self.location.clone(),
            receiver_declaration: copy_declaration(&self.receiver_declaration),
        }
    }
}

/// A call of a `waitUntil*` method.
#[derive(Debug, PartialEq, Eq)]
pub struct Waiter {
    /// The text of the call.
    pub expr: String,
    /// What is waited for, in camel case.
    pub name: String,
    pub parameters: Vec<Parameter>,
    pub location: Location,
    /// Where the receiver variable is declared, if that is known.
    pub receiver_declaration: Option<ReceiverDeclaration>,
}

pub struct WaiterView {
    pub expr: Seq<char>,
    pub name: Seq<char>,
    pub parameters: Seq<ParameterView>,
    pub location: LocationView,
    pub receiver_declaration: Option<DeclarationView>,
}

impl View for Waiter {
    type V = WaiterView;

    open spec fn view(&self) -> WaiterView {
        WaiterView {
            expr: self.expr@,
            name: self.name@,
            parameters: parameter_views(self.parameters@),
            location: self.location@,
            receiver_declaration: opt_declaration(self.receiver_declaration),
        }
    }
}

impl Clone for Waiter {
    fn clone(&self) -> (r: Self)
        ensures
            r@ == self@,
    {
        Waiter {
            expr: self.expr.clone(),
            name: self.name.clone(),
            parameters: copy_parameters(&self.parameters),
            location: self.location.clone(),
            receiver_declaration: copy_declaration(&self.receiver_declaration),
        }
    }
}

/// A call of a `*Paginator` method.
#[derive(Debug, PartialEq, Eq)]
pub struct Paginator {
    /// The text of the call.
    pub expr: String,
    /// The method name without `Paginator`.
    pub operation: String,
    pub parameters: Vec<Parameter>,
    pub location: Location,
    /// Where the receiver variable is declared, if that is known.
    pub receiver_declaration: Option<ReceiverDeclaration>,
}

pub struct PaginatorView {
    pub expr: Seq<char>,
    pub operation: Seq<char>,
    pub parameters: Seq<ParameterView>,
    pub location: LocationView,
    pub receiver_declaration: Option<DeclarationView>,
}

impl View for Paginator {
    type V = PaginatorView;

    open spec fn view(&self) -> PaginatorView {
        PaginatorView {
            expr: self.expr@,
            operation: self.operation@,
            parameters: parameter_views(self.parameters@),
            location: self.location@,
            receiver_declaration: opt_declaration(self.receiver_declaration),
        }
    }
}

impl Clone for Paginator {
    fn clone(&self) -> (r: Self)
        ensures
            r@ == self@,
    {
        Paginator {
            expr: self.expr.clone(),
            operation: self.operation.clone(),
            parameters: copy_parameters(&self.parameters),
            location: self.location.clone(),
            receiver_declaration: copy_declaration(&self.receiver_declaration),
        }
    }
}

/// All that extraction finds in one or more source files.
#[derive(Debug, PartialEq, Eq)]
pub struct ExtractionResult {
    pub imports: Vec<Import>,
    pub utility_imports: Vec<UtilityImport>,
    pub calls: Vec<Call>,
    pub waiters: Vec<Waiter>,
    pub paginators: Vec<Paginator>,
}

#[verifier::ext_equal]
pub struct ExtractionView {
    pub imports: Seq<ImportView>,
    pub utility_imports: Seq<UtilityImportView>,
    pub calls: Seq<CallView>,
    pub waiters: Seq<WaiterView>,
    pub paginators: Seq<PaginatorView>,
}

impl View for ExtractionResult {
    type V = ExtractionView;

    open spec fn view(&self) -> ExtractionView {
        ExtractionView {
            imports: self.imports@.map_values(|x: Import| x@),
            utility_imports: self.utility_imports@.map_values(|x: UtilityImport| x@),
            calls: self.calls@.map_values(|x: Call| x@),
            waiters: self.waiters@.map_values(|x: Waiter| x@),
            paginators: self.paginators@.map_values(|x: Paginator| x@),
        }
    }
}

/// Nothing found.
pub open spec fn nothing_found() -> ExtractionView {
    ExtractionView {
        imports: Seq::empty(),
        utility_imports: Seq::empty(),
        calls: Seq::empty(),
        waiters: Seq::empty(),
        paginators: Seq::empty(),
    }
}

/// What `a` and `b` hold together, each list of `b` behind that of `a`.
pub open spec fn both_found(a: ExtractionView, b: ExtractionView) -> ExtractionView {
    ExtractionView {
        imports: a.imports + b.imports,
        utility_imports: a.utility_imports + b.utility_imports,
        calls: a.calls + b.calls,
        waiters: a.waiters + b.waiters,
        paginators: a.paginators + b.paginators,
    }
}

impl Default for ExtractionResult {
    fn default() -> (r: Self)
        ensures
            r@ == nothing_found(),
    {
        let r = ExtractionResult {
            imports: Vec::new(),
            utility_imports: Vec::new(),
            calls: Vec::new(),
            waiters: Vec::new(),
            paginators: Vec::new(),
        };
        assert(r@ =~= nothing_found());
        r
    }
}

impl ExtractionResult {
    /// Appends what `other` holds.
    pub fn extend(&mut self, other: ExtractionResult)
        ensures
            final(self)@ == both_found(old(self)@, other@),
    {
        let ghost added = other@;
        let mut other = other;
        self.imports.append(&mut other.imports);
        self.utility_imports.append(&mut other.utility_imports);
        self.calls.append(&mut other.calls);
        self.waiters.append(&mut other.waiters);
        self.paginators.append(&mut other.paginators);
        assert(self@ =~= both_found(old(self)@, added));
    }
}

/// Merging is associative, so it does not matter how the results of several files are grouped.
pub proof fn merging_is_associative(a: ExtractionView, b: ExtractionView, c: ExtractionView)
    ensures
        both_found(both_found(a, b), c) == both_found(a, both_found(b, c)),
{
    assert(both_found(both_found(a, b), c) =~= both_found(a, both_found(b, c)));
}

/// Merging with an empty result changes nothing.
pub proof fn merging_nothing_changes_nothing(a: ExtractionView)
    ensures
        both_found(a, nothing_found()) == a,
        both_found(nothing_found(), a) == a,
{
    assert(both_found(a, nothing_found()) =~= a);
    assert(both_found(nothing_found(), a) =~= a);
}

} // verus!
