use vstd::prelude::*;

use crate::text::{copy_opt_string, opt_view};

verus! {

/// A package together with the manager (`source`) it belongs to.
#[derive(Debug, Clone, Default)]
pub struct PackageSpec {
    pub id: String,
    pub version: Option<String>,
    pub source: String,
}

pub struct PackageSpecView {
    pub id: Seq<char>,
    pub version: Option<Seq<char>>,
    pub source: Seq<char>,
}

impl View for PackageSpec {
    type V = PackageSpecView;

    open spec fn view(&self) -> PackageSpecView {
        PackageSpecView { id: self.id@, version: opt_view(self.version), source: self.source@ }
    }
}

/// The views of a list of specs.
pub open spec fn specs_view(v: Seq<PackageSpec>) -> Seq<PackageSpecView> {
    v.map_values(|p: PackageSpec| p@)
}

impl PackageSpec {
    /// A copy of the spec.
    pub fn copy(&self) -> (r: Self)
        ensures
            r@ == self@,
    {
        PackageSpec {
            id: self.id.clone(),
            version: copy_opt_string(&self.version),
            source: self.source.clone(),
        }
    }
}

} // verus!
