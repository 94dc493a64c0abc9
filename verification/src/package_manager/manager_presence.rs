use vstd::prelude::*;

verus! {

/// Reports whether Chocolatey and Scoop are present on the machine.
pub trait ManagerPresence {
    fn is_chocolatey_installed(&self) -> bool;

    fn is_scoop_installed(&self) -> bool;
}

} // verus!
