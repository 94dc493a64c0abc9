//! Which package managers are usable, and what to warn about.
use vstd::prelude::*;

use crate::models::{
    diff_result::strings_view, manager_validation::ValidationResult, ntix_config::NTIXConfig,
    options::NTIXOptions,
};
use crate::package_manager::manager_presence::ManagerPresence;

verus! {

/// `[m]` when `b` holds, nothing otherwise.
pub open spec fn note(b: bool, m: Seq<char>) -> Seq<Seq<char>> {
    if b {
        seq![m]
    } else {
        seq![]
    }
}

/// The warnings about managers, in order: each enabled manager that is not
/// installed (Chocolatey, Scoop, Winget), then each manager with declared
/// packages that is not enabled (Chocolatey, Scoop, Winget).
pub open spec fn manager_warnings(
    options: NTIXOptions,
    config: NTIXConfig,
    winget_installed: bool,
    choco_installed: bool,
    scoop_installed: bool,
) -> Seq<Seq<char>> {
    note(
        options.chocolatey.enable && !choco_installed,
        "[warn] Chocolatey is enabled but not installed. Skipping Chocolatey packages. Install from https://chocolatey.org/install"@,
    ) + note(
        options.scoop.enable && !scoop_installed,
        "[warn] Scoop is enabled but not installed. Skipping Scoop packages and buckets. Install from https://scoop.sh"@,
    ) + note(
        options.winget.enable && !winget_installed,
        "[warn] Winget is enabled but not installed. Auto-install failed. Skipping Winget packages. Install from https://github.com/microsoft/winget-cli"@,
    ) + note(
        config.choco_packages@.len() > 0 && !options.chocolatey.enable,
        "[warn] Chocolatey packages declared but chocolatey not enabled in options"@,
    ) + note(
        config.scoop_packages@.len() > 0 && !options.scoop.enable,
        "[warn] Scoop packages declared but scoop not enabled in options"@,
    ) + note(
        config.winget_packages@.len() > 0 && !options.winget.enable,
        "[warn] Winget packages declared but winget not enabled in options"@,
    )
}

/// Appends `m` when `b` holds.
fn push_note(warnings: &mut Vec<String>, b: bool, m: &str)
    ensures
        strings_view(final(warnings)@) == strings_view(old(warnings)@) + note(b, m@),
{
    let ghost w0 = warnings@;
    if b {
        warnings.push(m.to_owned());
    }
    assert(strings_view(warnings@) =~= strings_view(w0) + note(b, m@));
}

pub fn collect_warnings(
    options: &NTIXOptions,
    config: &NTIXConfig,
    winget_installed: bool,
    choco_installed: bool,
    scoop_installed: bool,
) -> (r: Vec<String>)
    ensures
        strings_view(r@) == manager_warnings(
            *options,
            *config,
            winget_installed,
            choco_installed,
            scoop_installed,
        ),
{
    let mut w: Vec<String> = Vec::new();
    assert(strings_view(w@) =~= Seq::<Seq<char>>::empty());
    push_note(
        &mut w,
        options.chocolatey.enable && !choco_installed,
        "[warn] Chocolatey is enabled but not installed. Skipping Chocolatey packages. Install from https://chocolatey.org/install",
    );
    push_note(
        &mut w,
        options.scoop.enable && !scoop_installed,
        "[warn] Scoop is enabled but not installed. Skipping Scoop packages and buckets. Install from https://scoop.sh",
    );
    push_note(
        &mut w,
        options.winget.enable && !winget_installed,
        "[warn] Winget is enabled but not installed. Auto-install failed. Skipping Winget packages. Install from https://github.com/microsoft/winget-cli",
    );
    push_note(
        &mut w,
        config.choco_packages.len() > 0 && !options.chocolatey.enable,
        "[warn] Chocolatey packages declared but chocolatey not enabled in options",
    );
    push_note(
        &mut w,
        config.scoop_packages.len() > 0 && !options.scoop.enable,
        "[warn] Scoop packages declared but scoop not enabled in options",
    );
    push_note(
        &mut w,
        config.winget_packages.len() > 0 && !options.winget.enable,
        "[warn] Winget packages declared but winget not enabled in options",
    );
    assert(strings_view(w@) =~= manager_warnings(
        *options,
        *config,
        winget_installed,
        choco_installed,
        scoop_installed,
    ));
    w
}

/// The verdict on the managers, given which of them are installed.
pub fn validate_managers(
    options: &NTIXOptions,
    config: &NTIXConfig,
    winget_installed: bool,
    choco_installed: bool,
    scoop_installed: bool,
) -> (r: ValidationResult)
    ensures
        r.winget_installed == winget_installed,
        r.choco_installed == choco_installed,
        r.scoop_installed == scoop_installed,
        strings_view(r.warnings@) == manager_warnings(
            *options,
            *config,
            winget_installed,
            choco_installed,
            scoop_installed,
        ),
{
    ValidationResult {
        warnings: collect_warnings(options, config, winget_installed, choco_installed, scoop_installed),
        winget_installed,
        choco_installed,
        scoop_installed,
    }
}

/// The verdict on the managers, asking `presence` about Chocolatey and
/// Scoop; the warnings follow whatever it answered.
pub fn validate_managers_with<P: ManagerPresence>(
    options: &NTIXOptions,
    config: &NTIXConfig,
    winget_installed: bool,
    presence: &P,
) -> (r: ValidationResult)
    ensures
        r.winget_installed == winget_installed,
        strings_view(r.warnings@) == manager_warnings(
            *options,
            *config,
            winget_installed,
            r.choco_installed,
            r.scoop_installed,
        ),
{
    let choco_installed = presence.is_chocolatey_installed();
    let scoop_installed = presence.is_scoop_installed();
    validate_managers(options, config, winget_installed, choco_installed, scoop_installed)
}

/// Whether winget needs installing: it is enabled but was not detected.
pub fn needs_winget_bootstrap(options: &NTIXOptions, detected: bool) -> (b: bool)
    ensures
        b == (options.winget.enable && !detected),
{
    options.winget.enable && !detected
}

} // verus!
