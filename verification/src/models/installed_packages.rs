use vstd::prelude::*;

use crate::str_map::StrMap;

verus! {

/// A version bump that a manager offers for an installed package.
#[derive(Debug, Clone)]
pub struct UpgradeInfo {
    pub current_version: String,
    pub available_version: String,
}

impl UpgradeInfo {
    pub fn new(current_version: &str, available_version: &str) -> (u: Self)
        ensures
            u.current_version@ == current_version@,
            u.available_version@ == available_version@,
    {
        UpgradeInfo {
            current_version: current_version.to_owned(),
            available_version: available_version.to_owned(),
        }
    }
}

/// The packages each manager reports as installed: id to version.
#[derive(Debug, Clone, Default)]
pub struct InstalledPackages {
    pub winget: StrMap<String>,
    pub chocolatey: StrMap<String>,
    pub scoop: StrMap<String>,
}

} // verus!
