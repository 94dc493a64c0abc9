use vstd::prelude::*;

use crate::str_map::StrMap;

verus! {

/// What ntix manages: packages per manager (id to version), scoop buckets
/// (name to URL) and config files (destination to content hash).
#[derive(Debug, Clone)]
pub struct State {
    pub version: i32,
    pub winget: StrMap<String>,
    pub chocolatey: StrMap<String>,
    pub scoop: StrMap<String>,
    pub scoop_buckets: StrMap<Option<String>>,
    /// Managed config files: destination path to the sha256 of the last applied source.
    pub config_files: StrMap<String>,
}

impl Default for State {
    /// The empty state of the current format version, 2.
    fn default() -> (s: Self)
        ensures
            s.version == 2,
            s.winget@.len() == 0,
            s.chocolatey@.len() == 0,
            s.scoop@.len() == 0,
            s.scoop_buckets@.len() == 0,
            s.config_files@.len() == 0,
    {
        State {
            version: 2,
            winget: StrMap::new(),
            chocolatey: StrMap::new(),
            scoop: StrMap::new(),
            scoop_buckets: StrMap::new(),
            config_files: StrMap::new(),
        }
    }
}

impl State {
    /// Brings a state written by an older format up to version 2; the
    /// managed entries are kept as they are.
    pub fn migrate(&mut self)
        ensures
            final(self).version == if old(self).version < 2 {
                2
            } else {
                old(self).version
            },
            final(self).winget == old(self).winget,
            final(self).chocolatey == old(self).chocolatey,
            final(self).scoop == old(self).scoop,
            final(self).scoop_buckets == old(self).scoop_buckets,
            final(self).config_files == old(self).config_files,
    {
        if self.version < 2 {
            self.version = 2;
        }
    }
}

} // verus!
