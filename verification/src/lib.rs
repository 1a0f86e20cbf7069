//! Locate declarations in a tree of items by a `::`-separated path.
//!
//! A path such as `a::b::C` is cut into name segments, and the tree is walked
//! segment by segment. Every declaration that sits exactly at the end of the
//! path is returned, in document order and without removing duplicates.

use vstd::prelude::*;

pub mod error;
pub mod item;
pub mod laws;
pub mod search;
pub mod selector;

pub use crate::error::{Error, ErrorView};
pub use crate::item::{items_view, Attribute, AttributeView, File, Item, ItemKind, ItemView};
pub use crate::search::search_spec;
pub use crate::selector::{parse_spec, Selector};

verus! {

/// What `select` gives for a path and the roots of a tree: the error of the
/// path, if it has one, and else what the search for its segments finds.
pub open spec fn select_spec(path: Seq<char>, roots: Seq<ItemView>) -> Result<
    Seq<ItemView>,
    ErrorView,
> {
    match parse_spec(path) {
        Ok(segs) => Ok(search_spec(segs, roots)),
        Err(e) => Err(e),
    }
}

/// The mathematical value of what `select` returns.
pub open spec fn outcome_view(r: Result<Vec<Item>, Error>) -> Result<Seq<ItemView>, ErrorView> {
    match r {
        Ok(found) => Ok(items_view(found@)),
        Err(e) => Err(e@),
    }
}

/// Parses a path, then searches a file for every declaration that sits
/// exactly at that path.
///
/// More than one declaration is found where siblings of different kinds share
/// the last name of the path, and where a declaration stands in the file more
/// than once, each time under another condition.
pub fn select(path: &str, file: &File) -> (r: Result<Vec<Item>, Error>)
    ensures
        outcome_view(r) == select_spec(path@, file@),
{
    match Selector::parse(path) {
        Ok(selector) => Ok(selector.search(file)),
        Err(e) => Err(e),
    }
}

} // verus!
