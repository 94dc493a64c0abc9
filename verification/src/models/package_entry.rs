use vstd::prelude::*;

use crate::text::{copy_opt_string, opt_view};

verus! {

/// A package declared in the config, with an optional pinned version.
#[derive(Debug, Clone, Default)]
pub struct PackageEntry {
    pub id: String,
    pub version: Option<String>,
}

pub struct PackageEntryView {
    pub id: Seq<char>,
    pub version: Option<Seq<char>>,
}

impl View for PackageEntry {
    type V = PackageEntryView;

    open spec fn view(&self) -> PackageEntryView {
        PackageEntryView { id: self.id@, version: opt_view(self.version) }
    }
}

/// The views of a list of entries.
pub open spec fn entries_view(v: Seq<PackageEntry>) -> Seq<PackageEntryView> {
    v.map_values(|e: PackageEntry| e@)
}

impl PackageEntry {
    /// An unpinned entry.
    pub fn new(id: &str) -> (e: Self)
        ensures
            e.id@ == id@,
            e.version is None,
    {
        PackageEntry { id: id.to_owned(), version: None }
    }

    /// A copy of the entry.
    pub fn copy(&self) -> (r: Self)
        ensures
            r@ == self@,
    {
        PackageEntry { id: self.id.clone(), version: copy_opt_string(&self.version) }
    }
}

} // verus!
