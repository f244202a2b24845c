//! Which functions create, read, update and delete the resources of each type.

use vstd::prelude::*;

use crate::order::views;
use crate::text::{opt_text, same, texts};

verus! {

/// A step in the life of a resource.
#[derive(Debug, Clone, Copy, PartialEq, Eq, Structural)]
pub enum CrudSlot {
    Create,
    Read,
    Update,
    Delete,
}

/// A set of steps.
#[derive(Debug, Clone, Copy, PartialEq, Eq, Structural)]
pub struct CrudSlots {
    pub create: bool,
    pub read: bool,
    pub update: bool,
    pub delete: bool,
}

impl CrudSlots {
    pub open spec fn has(self, slot: CrudSlot) -> bool {
        match slot {
            CrudSlot::Create => self.create,
            CrudSlot::Read => self.read,
            CrudSlot::Update => self.update,
            CrudSlot::Delete => self.delete,
        }
    }

    pub fn contains(&self, slot: CrudSlot) -> (r: bool)
        ensures
            r == self.has(slot),
    {
        match slot {
            CrudSlot::Create => self.create,
            CrudSlot::Read => self.read,
            CrudSlot::Update => self.update,
            CrudSlot::Delete => self.delete,
        }
    }
}

/// The functions that read and write the tags of a resource.
#[derive(Debug, PartialEq, Eq)]
pub struct TagsInfo {
    pub list_tags_symbol: Option<String>,
    pub update_tags_symbol: Option<String>,
}

/// The functions of a type of resources. A step that the provider does not have has none.
#[derive(Debug, PartialEq, Eq)]
pub struct ResourceEntry {
    pub resource_type: String,
    pub create: Option<String>,
    pub read: Option<String>,
    pub update: Option<String>,
    pub delete: Option<String>,
    pub tags: Option<TagsInfo>,
}

pub struct EntryView {
    pub resource_type: Seq<char>,
    pub create: Option<Seq<char>>,
    pub read: Option<Seq<char>>,
    pub update: Option<Seq<char>>,
    pub delete: Option<Seq<char>>,
    pub list_tags: Option<Seq<char>>,
    pub update_tags: Option<Seq<char>>,
}

impl View for ResourceEntry {
    type V = EntryView;

    open spec fn view(&self) -> EntryView {
        EntryView {
            resource_type: self.resource_type@,
            create: opt_text(self.create),
            read: opt_text(self.read),
            update: opt_text(self.update),
            delete: opt_text(self.delete),
            list_tags: match self.tags {
                Some(t) => opt_text(t.list_tags_symbol),
                None => None,
            },
            update_tags: match self.tags {
                Some(t) => opt_text(t.update_tags_symbol),
                None => None,
            },
        }
    }
}

impl EntryView {
    /// The function of a step.
    pub open spec fn handler(self, slot: CrudSlot) -> Option<Seq<char>> {
        match slot {
            CrudSlot::Create => self.create,
            CrudSlot::Read => self.read,
            CrudSlot::Update => self.update,
            CrudSlot::Delete => self.delete,
        }
    }

    /// All functions of the entry.
    pub open spec fn symbols(self) -> Seq<Seq<char>> {
        some_of(self.create) + some_of(self.read) + some_of(self.update) + some_of(self.delete)
            + some_of(self.list_tags) + some_of(self.update_tags)
    }
}

/// The one item that is there, or none.
pub open spec fn some_of<A>(o: Option<A>) -> Seq<A> {
    match o {
        Some(x) => seq![x],
        None => Seq::empty(),
    }
}

pub open spec fn text_ref(o: Option<&String>) -> Option<Seq<char>> {
    match o {
        Some(s) => Some(s@),
        None => None,
    }
}

fn push_symbol(v: &mut Vec<String>, o: Option<&String>)
    ensures
        texts(final(v)@) == texts(old(v)@) + some_of(text_ref(o)),
{
    let ghost before = texts(v@);
    match o {
        Some(s) => {
            v.push(s.clone());
            assert(texts(v@) =~= before + seq![s@]);
        },
        None => {
            assert(before + Seq::<Seq<char>>::empty() =~= before);
        },
    }
}

impl ResourceEntry {
    /// The function of a step, if the provider has one.
    pub fn handler(&self, slot: CrudSlot) -> (r: Option<&String>)
        ensures
            text_ref(r) == self@.handler(slot),
    {
        match slot {
            CrudSlot::Create => self.create.as_ref(),
            CrudSlot::Read => self.read.as_ref(),
            CrudSlot::Update => self.update.as_ref(),
            CrudSlot::Delete => self.delete.as_ref(),
        }
    }

    /// The function that reads the tags, if there is one.
    pub fn list_tags_symbol(&self) -> (r: Option<&String>)
        ensures
            text_ref(r) == self@.list_tags,
    {
        match &self.tags {
            Some(t) => t.list_tags_symbol.as_ref(),
            None => None,
        }
    }

    /// The function that writes the tags, if there is one.
    pub fn update_tags_symbol(&self) -> (r: Option<&String>)
        ensures
            text_ref(r) == self@.update_tags,
    {
        match &self.tags {
            Some(t) => t.update_tags_symbol.as_ref(),
            None => None,
        }
    }

    /// All functions of the entry: those of the four steps, then those of the tags.
    pub fn handler_symbols(&self) -> (r: Vec<String>)
        ensures
            texts(r@) == self@.symbols(),
    {
        let mut v: Vec<String> = Vec::new();
        assert(texts(v@) =~= Seq::<Seq<char>>::empty());
        push_symbol(&mut v, self.handler(CrudSlot::Create));
        push_symbol(&mut v, self.handler(CrudSlot::Read));
        push_symbol(&mut v, self.handler(CrudSlot::Update));
        push_symbol(&mut v, self.handler(CrudSlot::Delete));
        push_symbol(&mut v, self.list_tags_symbol());
        push_symbol(&mut v, self.update_tags_symbol());
        assert(texts(v@) =~= self@.symbols());
        v
    }
}

/// The entry of a type: the last one of several.
pub open spec fn entry_of(entries: Seq<EntryView>, resource_type: Seq<char>) -> Option<EntryView>
    decreases entries.len(),
{
    if entries.len() == 0 {
        None
    } else if entries.last().resource_type == resource_type {
        Some(entries.last())
    } else {
        entry_of(entries.drop_last(), resource_type)
    }
}

/// The functions of all types of resources.
#[derive(Debug)]
pub struct CrudMap {
    entries: Vec<ResourceEntry>,
}

impl View for CrudMap {
    type V = Seq<EntryView>;

    closed spec fn view(&self) -> Seq<EntryView> {
        views(self.entries@)
    }
}

impl CrudMap {
    pub fn from_entries(entries: Vec<ResourceEntry>) -> (r: Self)
        ensures
            r@ == views(entries@),
    {
        CrudMap { entries }
    }

    /// The entry of a type, such as `aws_s3_bucket`.
    pub fn get(&self, resource_type: &str) -> (r: Option<&ResourceEntry>)
        ensures
            match r {
                Some(e) => entry_of(self@, resource_type@) == Some(e@),
                None => entry_of(self@, resource_type@) is None,
            },
    {
        let ghost s = self@;
        let mut i: usize = self.entries.len();
        assert(s.subrange(0, s.len() as int) =~= s);
        while i > 0
            invariant
                i <= self.entries@.len(),
                s == views(self.entries@),
                entry_of(s, resource_type@) == entry_of(s.subrange(0, i as int), resource_type@),
            decreases i,
        {
            let ghost u = s.subrange(0, i as int);
            assert(u.last() == self.entries@[i - 1]@);
            assert(u.drop_last() =~= s.subrange(0, i - 1));
            i = i - 1;
            if same(self.entries[i].resource_type.as_str(), resource_type) {
                return Some(&self.entries[i]);
            }
        }
        None
    }
}

} // verus!
