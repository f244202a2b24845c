//! A lint on implementations of the trait of language extractors.

use vstd::prelude::*;

use crate::order::as_ints;
use crate::text::{same, texts};

verus! {

/// Warns where an implementation of `LanguageExtractor` has an `extract` of its own. The one that
/// the trait provides scans each file once and keeps the labels of extractors apart.
#[derive(Debug, Clone, Copy, PartialEq, Eq, Structural)]
pub struct NoExtractOverride;

pub const NO_EXTRACT_OVERRIDE_MESSAGE: &'static str =
    "overriding the provided `extract` method in a `LanguageExtractor` impl";

pub const NO_EXTRACT_OVERRIDE_HELP: &'static str =
    "implement `extractor_set()` instead; the framework's provided `extract()` will call it automatically and handle the parallel extraction pipeline";

/// An item of an implementation.
#[derive(Debug)]
pub struct ImplItem {
    pub name: String,
    pub is_fn: bool,
}

/// An implementation.
#[derive(Debug)]
pub struct ImplBlock {
    /// The segments of the path of the trait, if it is that of a trait.
    pub of_trait: Option<Vec<String>>,
    pub items: Vec<ImplItem>,
}

/// Whether a path leads to the trait.
pub open spec fn names_extractor_trait(path: Seq<Seq<char>>) -> bool {
    path.len() > 0 && path.last() == "LanguageExtractor"@
}

/// Whether an item is a function `extract`.
pub open spec fn is_extract(item: ImplItem) -> bool {
    item.is_fn && item.name@ == "extract"@
}

/// The positions of the functions `extract`.
pub open spec fn extract_positions(items: Seq<ImplItem>) -> Seq<int>
    decreases items.len(),
{
    if items.len() == 0 {
        Seq::empty()
    } else if is_extract(items.last()) {
        extract_positions(items.drop_last()).push(items.len() - 1)
    } else {
        extract_positions(items.drop_last())
    }
}

/// The positions of the items that the lint warns of.
pub open spec fn warned_items(block: ImplBlock) -> Seq<int> {
    match block.of_trait {
        Some(path) => if names_extractor_trait(texts(path@)) {
            extract_positions(block.items@)
        } else {
            Seq::empty()
        },
        None => Seq::empty(),
    }
}

fn is_language_extractor_trait(path: &Vec<String>) -> (r: bool)
    ensures
        r == names_extractor_trait(texts(path@)),
{
    if path.len() == 0 {
        return false;
    }
    assert(texts(path@).last() == path@[path@.len() - 1]@);
    same(path[path.len() - 1].as_str(), "LanguageExtractor")
}

impl NoExtractOverride {
    /// The positions of the items that the lint warns of.
    pub fn check_item(&self, block: &ImplBlock) -> (r: Vec<usize>)
        ensures
            as_ints(r@) == warned_items(*block),
    {
        let mut out: Vec<usize> = Vec::new();
        assert(as_ints(out@) =~= Seq::<int>::empty());
        match &block.of_trait {
            Some(path) => {
                if !is_language_extractor_trait(path) {
                    return out;
                }
            },
            None => {
                return out;
            },
        }
        let ghost s = block.items@;
        let mut i: usize = 0;
        assert(s.subrange(0, 0).len() == 0);
        while i < block.items.len()
            invariant
                i <= block.items@.len(),
                s == block.items@,
                as_ints(out@) == extract_positions(s.subrange(0, i as int)),
            decreases block.items@.len() - i,
        {
            let ghost u = s.subrange(0, i + 1);
            let ghost before = as_ints(out@);
            assert(u.drop_last() =~= s.subrange(0, i as int));
            assert(u.last() == block.items@[i as int]);
            if block.items[i].is_fn && same(block.items[i].name.as_str(), "extract") {
                out.push(i);
                assert(as_ints(out@) =~= before.push(i as int));
            }
            i = i + 1;
        }
        assert(s.subrange(0, s.len() as int) =~= s);
        out
    }
}

} // verus!
