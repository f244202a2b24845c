//! The calls that extraction produces, and where they stand in a source file.

use vstd::prelude::*;

use crate::text::{opt_text, texts};

verus! {

/// A range of a source file. Lines and columns count from one.
#[derive(Debug, PartialEq, Eq)]
pub struct Location {
    pub file_path: String,
    /// Line and column of the first character.
    pub start_position: (usize, usize),
    /// Line and column behind the last character.
    pub end_position: (usize, usize),
}

pub struct LocationView {
    pub file_path: Seq<char>,
    pub start_position: (usize, usize),
    pub end_position: (usize, usize),
}

impl View for Location {
    type V = LocationView;

    open spec fn view(&self) -> LocationView {
        LocationView {
            file_path: self.file_path@,
            start_position: self.start_position,
            end_position: self.end_position,
        }
    }
}

impl Clone for Location {
    fn clone(&self) -> (r: Self)
        ensures
            r@ == self@,
    {
        Location {
            file_path: self.file_path.clone(),
            start_position: self.start_position,
            end_position: self.end_position,
        }
    }
}

impl Location {
    pub fn new(
        file_path: String,
        start_position: (usize, usize),
        end_position: (usize, usize),
    ) -> (r: Self)
        ensures
            r.file_path == file_path,
            r.start_position == start_position,
            r.end_position == end_position,
    {
        Location { file_path, start_position, end_position }
    }

    pub fn start_line(&self) -> (r: usize)
        ensures
            r == self.start_position.0,
    {
        self.start_position.0
    }

    pub fn start_col(&self) -> (r: usize)
        ensures
            r == self.start_position.1,
    {
        self.start_position.1
    }
}

/// The value of an argument: known from the source text, or only the expression.
#[derive(Debug, PartialEq, Eq)]
pub enum ParameterValue {
    Resolved(String),
    Unresolved(String),
}

pub enum ParameterValueView {
    Resolved(Seq<char>),
    Unresolved(Seq<char>),
}

impl View for ParameterValue {
    type V = ParameterValueView;

    open spec fn view(&self) -> ParameterValueView {
        match self {
            ParameterValue::Resolved(s) => ParameterValueView::Resolved(s@),
            ParameterValue::Unresolved(s) => ParameterValueView::Unresolved(s@),
        }
    }
}

impl Clone for ParameterValue {
    fn clone(&self) -> (r: Self)
        ensures
            r@ == self@,
    {
        match self {
            ParameterValue::Resolved(s) => ParameterValue::Resolved(s.clone()),
            ParameterValue::Unresolved(s) => ParameterValue::Unresolved(s.clone()),
        }
    }
}

impl ParameterValue {
    /// The text of the value or of the expression.
    pub fn as_string(&self) -> (r: &String)
        ensures
            r@ == (match self@ {
                ParameterValueView::Resolved(s) => s,
                ParameterValueView::Unresolved(s) => s,
            }),
    {
        match self {
            ParameterValue::Resolved(s) => s,
            ParameterValue::Unresolved(s) => s,
        }
    }
}

/// An argument of a call.
#[derive(Debug, PartialEq, Eq)]
pub enum Parameter {
    Positional {
        value: ParameterValue,
        position: usize,
        type_annotation: Option<String>,
        struct_fields: Option<Vec<String>>,
    },
    Keyword {
        name: String,
        value: ParameterValue,
        position: usize,
        type_annotation: Option<String>,
    },
}

pub enum ParameterView {
    Positional {
        value: ParameterValueView,
        position: usize,
        type_annotation: Option<Seq<char>>,
        struct_fields: Option<Seq<Seq<char>>>,
    },
    Keyword {
        name: Seq<char>,
        value: ParameterValueView,
        position: usize,
        type_annotation: Option<Seq<char>>,
    },
}

pub open spec fn opt_texts(o: Option<Vec<String>>) -> Option<Seq<Seq<char>>> {
    match o {
        Some(v) => Some(texts(v@)),
        None => None,
    }
}

impl View for Parameter {
    type V = ParameterView;

    open spec fn view(&self) -> ParameterView {
        match self {
            Parameter::Positional { value, position, type_annotation, struct_fields } => {
                ParameterView::Positional {
                    value: value@,
                    position: *position,
                    type_annotation: opt_text(*type_annotation),
                    struct_fields: opt_texts(*struct_fields),
                }
            },
            Parameter::Keyword { name, value, position, type_annotation } => {
                ParameterView::Keyword {
                    name: name@,
                    value: value@,
                    position: *position,
                    type_annotation: opt_text(*type_annotation),
                }
            },
        }
    }
}

/// A copy of a list of texts.
pub fn copy_texts(v: &Vec<String>) -> (r: Vec<String>)
    ensures
        texts(r@) == texts(v@),
{
    let r = v.clone();
    assert(texts(r@) =~= texts(v@));
    r
}

impl Clone for Parameter {
    fn clone(&self) -> (r: Self)
        ensures
            r@ == self@,
    {
        match self {
            Parameter::Positional { value, position, type_annotation, struct_fields } => {
                let struct_fields = match struct_fields {
                    Some(v) => Some(copy_texts(v)),
                    None => None,
                };
                Parameter::Positional {
                    value: value.clone(),
                    position: *position,
                    type_annotation: type_annotation.clone(),
                    struct_fields,
                }
            },
            Parameter::Keyword { name, value, position, type_annotation } => {
                Parameter::Keyword {
                    name: name.clone(),
                    value: value.clone(),
                    position: *position,
                    type_annotation: type_annotation.clone(),
                }
            },
        }
    }
}

pub open spec fn parameter_views(v: Seq<Parameter>) -> Seq<ParameterView> {
    v.map_values(|p: Parameter| p@)
}

pub fn copy_parameters(v: &Vec<Parameter>) -> (r: Vec<Parameter>)
    ensures
        parameter_views(r@) == parameter_views(v@),
{
    let r = v.clone();
    assert(parameter_views(r@) =~= parameter_views(v@));
    r
}

/// What is known about a call beyond its name: its text, place, arguments and receiver.
#[derive(Debug, PartialEq, Eq)]
pub struct SdkMethodCallMetadata {
    pub expr: String,
    pub location: Location,
    pub parameters: Vec<Parameter>,
    pub receiver: Option<String>,
}

pub struct MetadataView {
    pub expr: Seq<char>,
    pub location: LocationView,
    pub parameters: Seq<ParameterView>,
    pub receiver: Option<Seq<char>>,
}

impl View for SdkMethodCallMetadata {
    type V = MetadataView;

    open spec fn view(&self) -> MetadataView {
        MetadataView {
            expr: self.expr@,
            location: self.location@,
            parameters: parameter_views(self.parameters@),
            receiver: opt_text(self.receiver),
        }
    }
}

impl Clone for SdkMethodCallMetadata {
    fn clone(&self) -> (r: Self)
        ensures
            r@ == self@,
    {
        SdkMethodCallMetadata {
            expr: self.expr.clone(),
            location: self.location.clone(),
            parameters: copy_parameters(&self.parameters),
            receiver: self.receiver.clone(),
        }
    }
}

impl SdkMethodCallMetadata {
    pub fn new(expr: String, location: Location) -> (r: Self)
        ensures
            r@ == (MetadataView {
                expr: expr@,
                location: location@,
                parameters: Seq::empty(),
                receiver: None,
            }),
    {
        let r = SdkMethodCallMetadata { expr, location, parameters: Vec::new(), receiver: None };
        assert(parameter_views(r.parameters@) =~= Seq::<ParameterView>::empty());
        r
    }

    pub fn with_parameters(self, parameters: Vec<Parameter>) -> (r: Self)
        ensures
            r@ == (MetadataView { parameters: parameter_views(parameters@), ..self@ }),
    {
        SdkMethodCallMetadata {
            expr: self.expr,
            location: self.location,
            parameters,
            receiver: self.receiver,
        }
    }

    pub fn with_receiver(self, receiver: String) -> (r: Self)
        ensures
            r@ == (MetadataView { receiver: Some(receiver@), ..self@ }),
    {
        SdkMethodCallMetadata {
            expr: self.expr,
            location: self.location,
            parameters: self.parameters,
            receiver: Some(receiver),
        }
    }
}

/// A call of an SDK operation, with the services it may belong to.
#[derive(Debug, PartialEq, Eq)]
pub struct SdkMethodCall {
    pub name: String,
    pub possible_services: Vec<String>,
    pub metadata: Option<SdkMethodCallMetadata>,
}

pub struct SdkCallView {
    pub name: Seq<char>,
    pub possible_services: Seq<Seq<char>>,
    pub metadata: Option<MetadataView>,
}

pub open spec fn opt_metadata(o: Option<SdkMethodCallMetadata>) -> Option<MetadataView> {
    match o {
        Some(m) => Some(m@),
        None => None,
    }
}

impl View for SdkMethodCall {
    type V = SdkCallView;

    open spec fn view(&self) -> SdkCallView {
        SdkCallView {
            name: self.name@,
            possible_services: texts(self.possible_services@),
            metadata: opt_metadata(self.metadata),
        }
    }
}

impl Clone for SdkMethodCall {
    fn clone(&self) -> (r: Self)
        ensures
            r@ == self@,
    {
        let metadata = match &self.metadata {
            Some(m) => Some(m.clone()),
            None => None,
        };
        SdkMethodCall {
            name: self.name.clone(),
            possible_services: copy_texts(&self.possible_services),
            metadata,
        }
    }
}

pub open spec fn call_views(v: Seq<SdkMethodCall>) -> Seq<SdkCallView> {
    v.map_values(|c: SdkMethodCall| c@)
}

} // verus!
