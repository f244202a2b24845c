//! What a scan of a JavaScript or TypeScript file finds.

use vstd::prelude::*;

use crate::sdk::{parameter_views, Location, LocationView, Parameter, ParameterView};
use crate::text::same;
use crate::text_map::TextMap;

verus! {

/// A name that a file imports, under its own name or another.
#[derive(Debug, PartialEq, Eq)]
pub struct ImportInfo {
    /// The name in the SDK.
    pub original_name: String,
    /// The import statement.
    pub statement: String,
    /// The name in the file.
    pub local_name: String,
    /// Whether the two names differ.
    pub is_renamed: bool,
    pub location: Location,
}

impl ImportInfo {
    pub fn new(
        original_name: String,
        local_name: String,
        statement: &str,
        location: Location,
    ) -> (r: Self)
        ensures
            r.original_name == original_name,
            r.local_name == local_name,
            r.statement@ == statement@,
            r.is_renamed == (original_name@ != local_name@),
            r.location == location,
    {
        let is_renamed = !same(original_name.as_str(), local_name.as_str());
        ImportInfo {
            original_name,
            statement: statement.to_string(),
            local_name,
            is_renamed,
            location,
        }
    }
}

/// What a file imports from one library of the SDK.
#[derive(Debug)]
pub struct SublibraryInfo {
    /// The name of the library, such as `client-s3`.
    pub sublibrary: String,
    pub imports: Vec<ImportInfo>,
    /// From the names in the file to those in the SDK.
    pub name_mappings: TextMap<String>,
    /// The name under which the whole library is imported.
    pub wildcard_namespace: Option<String>,
}

impl SublibraryInfo {
    pub fn new(sublibrary: String) -> (r: Self)
        ensures
            r.sublibrary == sublibrary,
            r.imports@ == Seq::<ImportInfo>::empty(),
            r.name_mappings@ == Map::<Seq<char>, String>::empty(),
            r.wildcard_namespace is None,
    {
        SublibraryInfo {
            sublibrary,
            imports: Vec::new(),
            name_mappings: TextMap::new(),
            wildcard_namespace: None,
        }
    }

    /// Adds an import. An earlier one of the same name in the file is hidden by it.
    pub fn add_import(&mut self, import_info: ImportInfo)
        ensures
            final(self).sublibrary == old(self).sublibrary,
            final(self).imports@ == old(self).imports@.push(import_info),
            final(self).name_mappings@ == old(self).name_mappings@.insert(
                import_info.local_name@,
                import_info.original_name,
            ),
            final(self).wildcard_namespace == old(self).wildcard_namespace,
    {
        self.name_mappings.insert(
            import_info.local_name.clone(),
            import_info.original_name.clone(),
        );
        self.imports.push(import_info);
    }

    pub fn set_wildcard_namespace(&mut self, namespace: String)
        ensures
            final(self).wildcard_namespace == Some(namespace),
            final(self).sublibrary == old(self).sublibrary,
            final(self).imports == old(self).imports,
            final(self).name_mappings == old(self).name_mappings,
    {
        self.wildcard_namespace = Some(namespace);
    }
}

/// A client that a file makes.
#[derive(Debug)]
pub struct ClientInstantiation {
    pub variable: String,
    /// The type under its name in the file.
    pub client_type: String,
    /// The type under its name in the SDK.
    pub original_client_type: String,
    pub sublibrary: String,
    pub arguments: TextMap<String>,
    pub line: usize,
}

/// The types of clients that a file imports.
#[derive(Debug)]
pub struct ValidClientTypes {
    /// Their names in the file.
    pub client_types: Vec<String>,
    /// From the names in the file to those in the SDK.
    pub name_mappings: TextMap<String>,
    /// From the names in the file to the libraries.
    pub sublibrary_mappings: TextMap<String>,
}

impl ValidClientTypes {
    pub fn new(
        client_types: Vec<String>,
        name_mappings: TextMap<String>,
        sublibrary_mappings: TextMap<String>,
    ) -> (r: Self)
        ensures
            r.client_types == client_types,
            r.name_mappings == name_mappings,
            r.sublibrary_mappings == sublibrary_mappings,
    {
        ValidClientTypes { client_types, name_mappings, sublibrary_mappings }
    }

    pub fn is_empty(&self) -> (r: bool)
        ensures
            r == (self.client_types@.len() == 0),
    {
        self.client_types.len() == 0
    }
}

/// A call of a method of a client.
#[derive(Debug)]
pub struct MethodCall {
    pub client_variable: String,
    pub client_type: String,
    pub original_client_type: String,
    pub client_sublibrary: String,
    pub method_name: String,
    pub arguments: TextMap<String>,
    /// The text of the call.
    pub expr: String,
    pub location: Location,
}

/// All that a scan finds.
#[derive(Debug)]
pub struct JavaScriptScanResults {
    pub imports: Vec<SublibraryInfo>,
    pub requires: Vec<SublibraryInfo>,
    pub client_instantiations: Vec<ClientInstantiation>,
    pub method_calls: Vec<MethodCall>,
}

impl JavaScriptScanResults {
    pub fn new() -> (r: Self)
        ensures
            r.imports@.len() == 0,
            r.requires@.len() == 0,
            r.client_instantiations@.len() == 0,
            r.method_calls@.len() == 0,
    {
        JavaScriptScanResults {
            imports: Vec::new(),
            requires: Vec::new(),
            client_instantiations: Vec::new(),
            method_calls: Vec::new(),
        }
    }
}

impl Default for JavaScriptScanResults {
    fn default() -> (r: Self)
        ensures
            r.imports@.len() == 0,
            r.requires@.len() == 0,
            r.client_instantiations@.len() == 0,
            r.method_calls@.len() == 0,
    {
        JavaScriptScanResults::new()
    }
}

/// Where a name is used, and with which arguments.
#[derive(Debug, PartialEq, Eq)]
pub struct CommandUsage {
    pub text: String,
    pub location: Location,
    pub parameters: Vec<Parameter>,
}

pub struct UsageView {
    pub text: Seq<char>,
    pub location: LocationView,
    pub parameters: Seq<ParameterView>,
}

impl View for CommandUsage {
    type V = UsageView;

    open spec fn view(&self) -> UsageView {
        UsageView {
            text: self.text@,
            location: self.location@,
            parameters: parameter_views(self.parameters@),
        }
    }
}

impl Clone for CommandUsage {
    fn clone(&self) -> (r: Self)
        ensures
            r@ == self@,
    {
        CommandUsage {
            text: self.text.clone(),
            location: self.location.clone(),
            parameters: crate::sdk::copy_parameters(&self.parameters),
        }
    }
}

/// The import itself as the use of a name, for a name whose use is not found.
pub open spec fn import_usage(i: ImportInfo) -> UsageView {
    UsageView { text: i.statement@, location: i.location@, parameters: Seq::empty() }
}

impl CommandUsage {
    pub fn new(text: String, location: Location, parameters: Vec<Parameter>) -> (r: Self)
        ensures
            r.text == text,
            r.location == location,
            r.parameters == parameters,
    {
        CommandUsage { text, location, parameters }
    }

    /// The import itself as the use of a name, for a name whose use is not found.
    pub fn of_import(import_info: &ImportInfo) -> (r: Self)
        ensures
            r@ == import_usage(*import_info),
    {
        let parameters: Vec<Parameter> = Vec::new();
        assert(parameter_views(parameters@) =~= Seq::<ParameterView>::empty());
        CommandUsage {
            text: import_info.statement.clone(),
            location: import_info.location.clone(),
            parameters,
        }
    }
}

/// The uses of the names of a whole library that have a given form.
#[derive(Debug)]
pub struct NamespaceUsages {
    /// The name under which the library is imported.
    pub namespace: String,
    /// The form of the names: the end of the name of a class, or the name itself.
    pub form: String,
    /// The names with their uses, in the order in which they occur.
    pub found: Vec<(String, CommandUsage)>,
}

/// Where the imported names are used.
#[derive(Debug)]
pub struct ScanUsages {
    /// Where classes are instantiated, by their names in the file.
    pub instantiations: TextMap<CommandUsage>,
    /// Where paginators are called, by their names in the file.
    pub paginators: TextMap<CommandUsage>,
    /// Where waiters are called, by their names in the file.
    pub waiters: TextMap<CommandUsage>,
    /// Where types of inputs are used, by their names in the file.
    pub command_inputs: TextMap<CommandUsage>,
    /// Where classes of whole libraries are instantiated.
    pub namespace_instantiations: Vec<NamespaceUsages>,
    /// Where paginators of whole libraries are called.
    pub namespace_paginators: Vec<NamespaceUsages>,
    /// Where waiters of whole libraries are called.
    pub namespace_waiters: Vec<NamespaceUsages>,
}

} // verus!
