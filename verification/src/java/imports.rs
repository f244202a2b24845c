//! Which service or utility package a Java import belongs to.

use vstd::prelude::*;

use crate::text::{
    after_prefix, has_prefix, opt_text, same, split, split_on, starts_with, strip_prefix, texts,
    trim, trim_end_char, trimmed, trimmed_end_of,
};
use crate::text_map::TextMap;

verus! {

/// The package of the service classes of the SDK.
pub const SERVICE_PACKAGE: &'static str = "software.amazon.awssdk.services.";

/// A package of the SDK that holds utility classes, with the service that they serve.
#[derive(Debug, PartialEq, Eq)]
pub struct ImportEntry {
    pub prefix: String,
    pub service_name: String,
}

pub struct ImportEntryView {
    pub prefix: Seq<char>,
    pub service_name: Seq<char>,
}

impl View for ImportEntry {
    type V = ImportEntryView;

    open spec fn view(&self) -> ImportEntryView {
        ImportEntryView { prefix: self.prefix@, service_name: self.service_name@ }
    }
}

/// What is known about packages of the SDK.
#[derive(Debug)]
pub struct ImportTables {
    /// From the package segment of a service to the name of the service.
    pub services: TextMap<String>,
    /// The packages of utility classes.
    pub utilities: Vec<ImportEntry>,
}

pub struct ImportTablesView {
    pub services: Map<Seq<char>, Seq<char>>,
    pub utilities: Seq<ImportEntryView>,
}

impl View for ImportTables {
    type V = ImportTablesView;

    open spec fn view(&self) -> ImportTablesView {
        ImportTablesView {
            services: self.services@.map_values(|s: String| s@),
            utilities: self.utilities@.map_values(|e: ImportEntry| e@),
        }
    }
}

/// What stands between `import` or `import static` and the semicolon.
pub open spec fn import_path(text: Seq<char>) -> Seq<char> {
    let rest = after_keyword(text);
    let path = match after_prefix(rest, "static"@) {
        Some(p) => p,
        None => rest,
    };
    trimmed(trimmed_end_of(trimmed(path), ';'))
}

/// What stands behind the word `import`.
pub open spec fn after_keyword(text: Seq<char>) -> Seq<char> {
    trimmed(
        match after_prefix(text, "import"@) {
            Some(p) => p,
            None => text,
        },
    )
}

pub open spec fn is_static_import(text: Seq<char>) -> bool {
    has_prefix(after_keyword(text), "static"@)
}

/// The segment of a package path that names the service.
pub open spec fn service_segment(path: Seq<char>) -> Option<Seq<char>> {
    match after_prefix(path, SERVICE_PACKAGE@) {
        Some(rest) => Some(split_on(rest, '.')[0]),
        None => None,
    }
}

/// The service that an import path belongs to.
pub open spec fn imported_service(
    path: Seq<char>,
    services: Map<Seq<char>, Seq<char>>,
) -> Option<Seq<char>> {
    match service_segment(path) {
        Some(segment) => if services.contains_key(segment) {
            Some(services[segment])
        } else {
            Some(segment)
        },
        None => None,
    }
}

/// The service of the first entry whose prefix the path starts with.
pub open spec fn utility_service(path: Seq<char>, table: Seq<ImportEntryView>) -> Option<Seq<char>>
    decreases table.len(),
{
    if table.len() == 0 {
        None
    } else if has_prefix(path, table[0].prefix) {
        Some(table[0].service_name)
    } else {
        utility_service(path, table.subrange(1, table.len() as int))
    }
}

/// The service and the class of an import of a utility class. A wildcard import names no class.
pub open spec fn utility_import(path: Seq<char>, table: Seq<ImportEntryView>) -> Option<
    (Seq<char>, Seq<char>),
> {
    let class_name = split_on(path, '.').last();
    if class_name == "*"@ {
        None
    } else {
        match utility_service(path, table) {
            Some(service) => Some((service, class_name)),
            None => None,
        }
    }
}

/// The first segment of a dotted name.
pub fn first_segment(s: &str) -> (r: String)
    ensures
        r@ == split_on(s@, '.')[0],
{
    let parts = split(s, '.');
    assert(texts(parts@)[0] == parts@[0]@);
    parts[0].clone()
}

/// The last segment of a dotted name.
pub fn last_segment(s: &str) -> (r: String)
    ensures
        r@ == split_on(s@, '.').last(),
{
    let parts = split(s, '.');
    assert(texts(parts@).last() == parts@.last()@);
    parts[parts.len() - 1].clone()
}

/// The service that a fully qualified name belongs to, as the name spells it.
pub fn extract_service_from_fqn(name: &str) -> (r: Option<String>)
    ensures
        opt_text(r) == service_segment(name@),
{
    match strip_prefix(name, SERVICE_PACKAGE) {
        Some(rest) => Some(first_segment(rest.as_str())),
        None => None,
    }
}

/// The service that an import path belongs to.
pub fn extract_service_from_import(path: &str, tables: &ImportTables) -> (r: Option<String>)
    ensures
        opt_text(r) == imported_service(path@, tables@.services),
{
    match extract_service_from_fqn(path) {
        Some(segment) => match tables.services.get(segment.as_str()) {
            Some(service) => Some(service.clone()),
            None => Some(segment),
        },
        None => None,
    }
}

pub open spec fn opt_pair(o: Option<(String, String)>) -> Option<(Seq<char>, Seq<char>)> {
    match o {
        Some(p) => Some((p.0@, p.1@)),
        None => None,
    }
}

/// The service and the class of an import of a utility class.
pub fn classify_utility_import(path: &str, tables: &ImportTables) -> (r: Option<(String, String)>)
    ensures
        opt_pair(r) == utility_import(path@, tables@.utilities),
{
    let class_name = last_segment(path);
    if same(class_name.as_str(), "*") {
        return None;
    }
    let ghost s = tables@.utilities;
    let mut i: usize = 0;
    assert(s.subrange(0, s.len() as int) == s);
    while i < tables.utilities.len()
        invariant
            i <= tables.utilities@.len(),
            s == tables@.utilities,
            class_name@ == split_on(path@, '.').last(),
            class_name@ != "*"@,
            utility_service(path@, s) == utility_service(
                path@,
                s.subrange(i as int, s.len() as int),
            ),
        decreases tables.utilities@.len() - i,
    {
        proof {
            let u = s.subrange(i as int, s.len() as int);
            assert(u[0] == tables.utilities@[i as int]@);
            assert(u.subrange(1, u.len() as int) == s.subrange(i + 1, s.len() as int));
        }
        if starts_with(path, tables.utilities[i].prefix.as_str()) {
            return Some((tables.utilities[i].service_name.clone(), class_name));
        }
        i = i + 1;
    }
    None
}

/// What stands between `import` or `import static` and the semicolon, and whether the import is
/// static.
pub fn parse_import(text: &str) -> (r: (String, bool))
    ensures
        r.0@ == import_path(text@),
        r.1 == is_static_import(text@),
{
    let rest = match strip_prefix(text, "import") {
        Some(p) => trim(p.as_str()),
        None => trim(text),
    };
    let is_static = starts_with(rest.as_str(), "static");
    let path = match strip_prefix(rest.as_str(), "static") {
        Some(p) => p,
        None => rest,
    };
    let path = trim(path.as_str());
    let path = trim_end_char(path.as_str(), ';');
    (trim(path.as_str()), is_static)
}

} // verus!
