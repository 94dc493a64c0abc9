use vstd::prelude::*;

use crate::models::{
    config_file::ConfigFileEntry, import_node::ImportNode, options::NTIXOptions,
    package_entry::PackageEntry,
};

verus! {

/// A loaded configuration: settings, declared packages per manager, managed
/// config files and the tree of imported files.
#[derive(Debug, Default)]
pub struct NTIXConfig {
    pub options: NTIXOptions,
    pub winget_packages: Vec<PackageEntry>,
    pub choco_packages: Vec<PackageEntry>,
    pub scoop_packages: Vec<PackageEntry>,
    pub config_files: Vec<ConfigFileEntry>,
    pub imports: Vec<ImportNode>,
}

} // verus!
