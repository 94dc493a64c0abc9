use vstd::prelude::*;

use crate::text::{eq_ignore_ascii_case, str_eq_ignore_ascii_case};

verus! {

/// The package managers ntix operates on.
#[derive(Debug, Clone, Copy, PartialEq, Eq, Hash, PartialOrd, Ord, Default, Structural)]
pub enum PackageManager {
    #[default]
    Winget,
    Chocolatey,
    Scoop,
}

/// The canonical lowercase name of a manager.
pub open spec fn manager_name(m: PackageManager) -> Seq<char> {
    match m {
        PackageManager::Winget => seq!['w', 'i', 'n', 'g', 'e', 't'],
        PackageManager::Chocolatey => seq!['c', 'h', 'o', 'c', 'o', 'l', 'a', 't', 'e', 'y'],
        PackageManager::Scoop => seq!['s', 'c', 'o', 'o', 'p'],
    }
}

/// The manager whose name a string holds, ignoring case.
///
/// Lower-casing a string (as `str::to_lowercase` does) gives one of the
/// names exactly when the string equals it up to ASCII case: the only
/// non-ASCII characters that lower-case to an ASCII letter turn into `k`,
/// which no name holds.
pub open spec fn manager_named(s: Seq<char>) -> Option<PackageManager> {
    if eq_ignore_ascii_case(s, manager_name(PackageManager::Winget)) {
        Some(PackageManager::Winget)
    } else if eq_ignore_ascii_case(s, manager_name(PackageManager::Chocolatey)) {
        Some(PackageManager::Chocolatey)
    } else if eq_ignore_ascii_case(s, manager_name(PackageManager::Scoop)) {
        Some(PackageManager::Scoop)
    } else {
        None
    }
}

impl PackageManager {
    /// The canonical lowercase name used in configs, messages and diagnostics.
    pub fn as_str(self) -> (s: &'static str)
        ensures
            s@ == manager_name(self),
    {
        match self {
            PackageManager::Winget => {
                proof {
                    reveal_strlit("winget");
                }
                "winget"
            },
            PackageManager::Chocolatey => {
                proof {
                    reveal_strlit("chocolatey");
                }
                "chocolatey"
            },
            PackageManager::Scoop => {
                proof {
                    reveal_strlit("scoop");
                }
                "scoop"
            },
        }
    }

    /// Case-insensitive lookup of a manager by name.
    pub fn from_name(s: &str) -> (r: Option<Self>)
        ensures
            r == manager_named(s@),
    {
        if str_eq_ignore_ascii_case(s, PackageManager::Winget.as_str()) {
            Some(PackageManager::Winget)
        } else if str_eq_ignore_ascii_case(s, PackageManager::Chocolatey.as_str()) {
            Some(PackageManager::Chocolatey)
        } else if str_eq_ignore_ascii_case(s, PackageManager::Scoop.as_str()) {
            Some(PackageManager::Scoop)
        } else {
            None
        }
    }

    /// All supported managers, in a stable order.
    pub fn all() -> (r: [PackageManager; 3])
        ensures
            r@ == seq![PackageManager::Winget, PackageManager::Chocolatey, PackageManager::Scoop],
    {
        let r = [PackageManager::Winget, PackageManager::Chocolatey, PackageManager::Scoop];
        assert(r@ =~= seq![PackageManager::Winget, PackageManager::Chocolatey, PackageManager::Scoop]);
        r
    }
}

/// Looking a manager up by its own name, in any ASCII case, finds it.
pub proof fn lemma_name_round_trip(m: PackageManager, s: Seq<char>)
    requires
        eq_ignore_ascii_case(s, manager_name(m)),
    ensures
        manager_named(s) == Some(m),
{
    let w = manager_name(PackageManager::Winget);
    let c = manager_name(PackageManager::Chocolatey);
    let sc = manager_name(PackageManager::Scoop);
    assert(s.len() == manager_name(m).len());
    match m {
        PackageManager::Winget => {},
        PackageManager::Chocolatey => {
            assert(crate::text::ascii_lower(s[0]) == 'c');
            assert(!eq_ignore_ascii_case(s, w));
        },
        PackageManager::Scoop => {
            assert(crate::text::ascii_lower(s[0]) == 's');
            assert(!eq_ignore_ascii_case(s, w));
            assert(!eq_ignore_ascii_case(s, c));
        },
    }
}

} // verus!
