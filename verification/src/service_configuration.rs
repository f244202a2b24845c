//! How services are named in different places.

use vstd::prelude::*;

use crate::generate_model::text_values;
use crate::text::{contains_char, remove_char, texts, without};
use crate::text_map::TextMap;

verus! {

/// An operation that goes by another name.
#[derive(Debug)]
pub struct OperationRename {
    pub service: String,
    pub operation: String,
}

/// The names of services that differ.
#[derive(Debug)]
pub struct ServiceConfiguration {
    /// The names that services have in the maps from operations to actions.
    pub rename_services_operation_action_map: TextMap<String>,
    /// The names that services have in the service reference.
    pub rename_services_service_reference: TextMap<String>,
    /// From the names in Smithy models to those in botocore.
    pub smithy_botocore_service_name_mapping: TextMap<String>,
    /// The resources of services that are replaced.
    pub resource_overrides: TextMap<TextMap<String>>,
}

/// The name that a map has for `original`; without one it keeps its name.
pub open spec fn renamed(m: Map<Seq<char>, String>, original: Seq<char>) -> Seq<char> {
    if m.contains_key(original) {
        m[original]@
    } else {
        original
    }
}

fn rename(map: &TextMap<String>, original: &str) -> (r: String)
    ensures
        r@ == renamed(map@, original@),
{
    match map.get(original) {
        Some(name) => name.clone(),
        None => original.to_string(),
    }
}

/// The services by their names in Smithy models without dashes. Of two names that differ only in
/// dashes the later one counts.
pub open spec fn smithy_names(
    entries: Seq<(String, String)>,
) -> Map<Seq<char>, Seq<char>>
    decreases entries.len(),
{
    if entries.len() == 0 {
        Map::empty()
    } else {
        smithy_names(entries.drop_last()).insert(
            without(entries.last().0@, '-'),
            entries.last().1@,
        )
    }
}

/// The map with those names that hold a dash, each under its form without dashes, unless the map
/// has the form. Of two names that differ only in dashes the later one counts.
pub open spec fn with_own_names(
    m: Map<Seq<char>, Seq<char>>,
    names: Seq<Seq<char>>,
) -> Map<Seq<char>, Seq<char>>
    decreases names.len(),
{
    if names.len() == 0 {
        m
    } else {
        let rest = with_own_names(m, names.drop_last());
        let name = names.last();
        if name.contains('-') && !m.contains_key(without(name, '-')) {
            rest.insert(without(name, '-'), name)
        } else {
            rest
        }
    }
}

impl ServiceConfiguration {
    /// The name of a service in the maps from operations to actions.
    pub fn rename_service_operation_action_map(&self, original: &str) -> (r: String)
        ensures
            r@ == renamed(self.rename_services_operation_action_map@, original@),
    {
        rename(&self.rename_services_operation_action_map, original)
    }

    /// The name of a service in the service reference.
    pub fn rename_service_service_reference(&self, original: &str) -> (r: String)
        ensures
            r@ == renamed(self.rename_services_service_reference@, original@),
    {
        rename(&self.rename_services_service_reference, original)
    }

    /// The services by their names in Smithy models without dashes.
    fn explicit_names(&self) -> (r: TextMap<String>)
        ensures
            text_values(r@) == smithy_names(self.smithy_botocore_service_name_mapping.entry_list()),
    {
        let mut map: TextMap<String> = TextMap::new();
        let entries = self.smithy_botocore_service_name_mapping.entries();
        let ghost e = entries@;
        let mut i: usize = 0;
        assert(e.subrange(0, 0).len() == 0);
        assert(text_values(map@) =~= Map::<Seq<char>, Seq<char>>::empty());
        while i < entries.len()
            invariant
                i <= entries@.len(),
                e == entries@,
                text_values(map@) == smithy_names(e.subrange(0, i as int)),
            decreases entries@.len() - i,
        {
            let ghost u = e.subrange(0, i + 1);
            let ghost before = text_values(map@);
            assert(u.drop_last() =~= e.subrange(0, i as int));
            assert(u.last() == entries@[i as int]);
            let segment = remove_char(entries[i].0.as_str(), '-');
            let ghost k = segment@;
            map.insert(segment, entries[i].1.clone());
            assert(text_values(map@) =~= before.insert(k, entries@[i as int].1@));
            i = i + 1;
        }
        assert(e.subrange(0, e.len() as int) =~= e);
        map
    }

    /// The services by the segments that stand for them in imports. A segment is the name of a
    /// service in Smithy models without dashes. Services of botocore with dashes in their names
    /// are found under the names without dashes too, unless the segment stands for another
    /// service.
    pub fn build_java_import_service_map(&self, botocore_names: &Vec<String>) -> (r: TextMap<
        String,
    >)
        ensures
            text_values(r@) == with_own_names(
                smithy_names(self.smithy_botocore_service_name_mapping.entry_list()),
                texts(botocore_names@),
            ),
    {
        let explicit = self.explicit_names();
        let mut map = self.explicit_names();
        let ghost m = text_values(explicit@);
        let ghost s = texts(botocore_names@);
        let mut j: usize = 0;
        assert(s.subrange(0, 0).len() == 0);
        while j < botocore_names.len()
            invariant
                j <= botocore_names@.len(),
                s == texts(botocore_names@),
                m == text_values(explicit@),
                text_values(map@) == with_own_names(m, s.subrange(0, j as int)),
            decreases botocore_names@.len() - j,
        {
            let ghost u = s.subrange(0, j + 1);
            let ghost before = text_values(map@);
            assert(u.drop_last() =~= s.subrange(0, j as int));
            let name = botocore_names[j].as_str();
            assert(u.last() == name@);
            if contains_char(name, '-') {
                let segment = remove_char(name, '-');
                let ghost k = segment@;
                assert(m.contains_key(k) == explicit@.contains_key(k));
                if !explicit.contains_key(segment.as_str()) {
                    map.insert(segment, botocore_names[j].clone());
                    assert(text_values(map@) =~= before.insert(k, name@));
                }
            }
            j = j + 1;
        }
        assert(s.subrange(0, s.len() as int) =~= s);
        map
    }
}

/// What the mapping of Smithy names says takes priority over the names of botocore.
pub proof fn explicit_names_take_priority(
    m: Map<Seq<char>, Seq<char>>,
    names: Seq<Seq<char>>,
    segment: Seq<char>,
)
    requires
        m.contains_key(segment),
    ensures
        with_own_names(m, names).contains_key(segment),
        with_own_names(m, names)[segment] == m[segment],
    decreases names.len(),
{
    if names.len() > 0 {
        explicit_names_take_priority(m, names.drop_last(), segment);
    }
}

/// Every name of botocore with a dash in it is found under its form without dashes. The form stands
/// for a service that the mapping of Smithy names gives it, or for one whose name has that form.
pub proof fn dashed_names_are_found(
    m: Map<Seq<char>, Seq<char>>,
    names: Seq<Seq<char>>,
    i: int,
)
    requires
        0 <= i < names.len(),
        names[i].contains('-'),
    ensures
        with_own_names(m, names).contains_key(without(names[i], '-')),
        ({
            let found = with_own_names(m, names)[without(names[i], '-')];
            if m.contains_key(without(names[i], '-')) {
                found == m[without(names[i], '-')]
            } else {
                names.contains(found) && without(found, '-') == without(names[i], '-')
            }
        }),
    decreases names.len(),
{
    let form = without(names[i], '-');
    if m.contains_key(form) {
        explicit_names_take_priority(m, names, form);
    } else {
        let t = names.drop_last();
        let last = names[names.len() - 1];
        if last.contains('-') && without(last, '-') == form {
            assert(names.contains(last));
        } else {
            assert(t[i] == names[i]);
            dashed_names_are_found(m, t, i);
            let found = with_own_names(m, t)[form];
            let k = choose|k: int| 0 <= k < t.len() && t[k] == found;
            assert(names[k] == found);
        }
    }
}

} // verus!
