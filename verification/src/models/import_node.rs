use vstd::prelude::*;

verus! {

/// One imported config file and the files it imports in turn; the path is
/// relative to the directory of the root config.
#[derive(Debug)]
pub struct ImportNode {
    pub path: String,
    pub children: Vec<ImportNode>,
}

} // verus!
