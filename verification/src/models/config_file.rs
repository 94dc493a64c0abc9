use vstd::prelude::*;

verus! {

/// An arbitrary file managed by ntix, copied from `src` to `dest`; both are
/// absolute paths once the config is loaded.
#[derive(Debug, Clone, PartialEq, Eq)]
pub struct ConfigFileEntry {
    /// Absolute path of the destination file on the system.
    pub dest: String,
    /// Absolute path of the source file.
    pub src: String,
}

pub struct ConfigFileEntryView {
    pub dest: Seq<char>,
    pub src: Seq<char>,
}

impl View for ConfigFileEntry {
    type V = ConfigFileEntryView;

    open spec fn view(&self) -> ConfigFileEntryView {
        ConfigFileEntryView { dest: self.dest@, src: self.src@ }
    }
}

impl ConfigFileEntry {
    /// A copy of the entry.
    pub fn copy(&self) -> (r: Self)
        ensures
            r@ == self@,
    {
        ConfigFileEntry { dest: self.dest.clone(), src: self.src.clone() }
    }
}

} // verus!
