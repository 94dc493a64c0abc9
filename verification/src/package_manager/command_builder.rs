//! The shell commands ntix runs, built from validated package ids.
use vstd::prelude::*;

use crate::models::options::{ChocoOptions, ScoopOptions, WingetOptions};
use crate::text::{chars_of, opt_str_view, opt_view, trim, trim_bounds};

verus! {

/// Why a command could not be built.
#[derive(Debug, Clone)]
pub enum BuildError {
    /// The id is empty or holds only whitespace.
    EmptyId,
    /// The id holds a character outside `[a-zA-Z0-9._\-/]`.
    InvalidCharacters(String),
}

pub enum BuildErrorView {
    EmptyId,
    InvalidCharacters(Seq<char>),
}

impl View for BuildError {
    type V = BuildErrorView;

    open spec fn view(&self) -> BuildErrorView {
        match self {
            BuildError::EmptyId => BuildErrorView::EmptyId,
            BuildError::InvalidCharacters(s) => BuildErrorView::InvalidCharacters(s@),
        }
    }
}

impl BuildError {
    /// The message the error is reported with.
    pub fn message(&self) -> (m: String)
        ensures
            m@ == match self@ {
                BuildErrorView::EmptyId => "Package ID cannot be empty"@,
                BuildErrorView::InvalidCharacters(id) => "Package ID contains invalid characters: "@
                    + id,
            },
    {
        match self {
            BuildError::EmptyId => "Package ID cannot be empty".to_owned(),
            BuildError::InvalidCharacters(id) => {
                let mut m = "Package ID contains invalid characters: ".to_owned();
                m.append(id.as_str());
                m
            },
        }
    }
}

/// The characters a package id, version or bucket name may hold.
pub open spec fn is_safe_char(c: char) -> bool {
    ('a' <= c && c <= 'z') || ('A' <= c && c <= 'Z') || ('0' <= c && c <= '9') || c == '.' || c
        == '_' || c == '-' || c == '/'
}

/// The whole of `s` is one or more safe characters.
pub open spec fn all_safe(s: Seq<char>) -> bool {
    s.len() > 0 && forall|i: int| 0 <= i < s.len() ==> is_safe_char(#[trigger] s[i])
}

/// The verdict on an id: empty when blank, invalid when it holds an unsafe
/// character, accepted otherwise.
pub open spec fn check_id(s: Seq<char>) -> Result<(), BuildErrorView> {
    if trim(s).len() == 0 {
        Err(BuildErrorView::EmptyId)
    } else if !all_safe(s) {
        Err(BuildErrorView::InvalidCharacters(s))
    } else {
        Ok(())
    }
}

/// `rest` when `s` is accepted, the error on `s` otherwise.
pub open spec fn after_check(s: Seq<char>, rest: Result<Seq<char>, BuildErrorView>) -> Result<
    Seq<char>,
    BuildErrorView,
> {
    match check_id(s) {
        Err(e) => Err(e),
        Ok(_) => rest,
    }
}

/// The view of a build result.
pub open spec fn built(r: Result<String, BuildError>) -> Result<Seq<char>, BuildErrorView> {
    match r {
        Ok(s) => Ok(s@),
        Err(e) => Err(e@),
    }
}

/// `f` when `b` holds, nothing otherwise.
pub open spec fn flag(b: bool, f: Seq<char>) -> Seq<char> {
    if b {
        f
    } else {
        seq![]
    }
}

pub fn validate_id(id: &str) -> (r: Result<(), BuildError>)
    ensures
        match r {
            Ok(_) => check_id(id@) is Ok,
            Err(e) => check_id(id@) == Err::<(), BuildErrorView>(e@),
        },
{
    let v = chars_of(id);
    assert(v@.subrange(0, v@.len() as int) == v@);
    let (a, b) = trim_bounds(&v, 0, v.len());
    if a == b {
        return Err(BuildError::EmptyId);
    }
    assert(trim(id@).len() > 0);
    let mut i: usize = 0;
    while i < v.len()
        invariant
            v@ == id@,
            trim(id@).len() > 0,
            i <= v@.len(),
            forall|j: int| 0 <= j < i ==> is_safe_char(#[trigger] v@[j]),
        decreases v.len() - i,
    {
        let c = v[i];
        if !(('a' <= c && c <= 'z') || ('A' <= c && c <= 'Z') || ('0' <= c && c <= '9') || c
            == '.' || c == '_' || c == '-' || c == '/') {
            assert(!is_safe_char(id@[i as int]));
            assert(trim(id@).len() > 0);
            return Err(BuildError::InvalidCharacters(id.to_owned()));
        }
        i = i + 1;
    }
    assert(trim(id@).len() > 0);
    assert(id@.len() > 0);
    Ok(())
}

/// `choco install`, with the version pin and the flags the options ask for.
pub open spec fn choco_install_command(
    id: Seq<char>,
    version: Option<Seq<char>>,
    o: ChocoOptions,
) -> Seq<char> {
    "choco install "@ + id + match version {
        Some(v) => " --version "@ + v,
        None => seq![],
    } + flag(o.yes, " -y"@) + flag(o.force, " --force"@) + flag(
        o.ignore_dependencies,
        " --ignore-dependencies"@,
    ) + flag(o.allow_downgrade, " --allow-downgrade"@) + flag(o.skip_power_shell, " --skip-scripts"@)
        + flag(o.pre, " --pre"@) + match opt_view(o.params) {
        Some(p) => " --params=\"'"@ + p + "'\""@,
        None => seq![],
    }
}

/// `scoop install`, pinned with `id@version`, with the flags the options ask for.
pub open spec fn scoop_install_command(
    id: Seq<char>,
    version: Option<Seq<char>>,
    o: ScoopOptions,
) -> Seq<char> {
    "scoop install "@ + id + match version {
        Some(v) => "@"@ + v,
        None => seq![],
    } + flag(o.global, " -g"@) + flag(o.independent, " -i"@) + flag(o.no_cache, " -k"@) + flag(
        o.skip_hash_check,
        " -s"@,
    ) + match opt_view(o.arch) {
        Some(a) => " --arch "@ + a,
        None => seq![],
    }
}

pub open spec fn choco_upgrade_command(id: Seq<char>, o: ChocoOptions) -> Seq<char> {
    "choco upgrade "@ + id + flag(o.yes, " -y"@) + flag(o.force, " --force"@) + flag(
        o.pre,
        " --pre"@,
    )
}

pub open spec fn scoop_upgrade_command(id: Seq<char>, o: ScoopOptions) -> Seq<char> {
    "scoop update "@ + id + flag(o.global, " -g"@)
}

pub open spec fn choco_uninstall_command(id: Seq<char>, o: ChocoOptions) -> Seq<char> {
    "choco uninstall "@ + id + flag(o.yes, " -y"@) + flag(o.force, " --force"@) + flag(
        o.ignore_dependencies,
        " --ignore-dependencies"@,
    )
}

pub open spec fn scoop_uninstall_command(id: Seq<char>, o: ScoopOptions) -> Seq<char> {
    "scoop uninstall "@ + id + flag(o.global, " -g"@)
}

/// The interaction flag: `--silent` wins over `--disable-interactivity`.
pub open spec fn winget_interaction(o: WingetOptions) -> Seq<char> {
    if o.silent {
        " --silent"@
    } else if o.disable_interactivity {
        " --disable-interactivity"@
    } else {
        seq![]
    }
}

pub open spec fn winget_agreement_flags(o: WingetOptions) -> Seq<char> {
    flag(o.accept_agreement, " --accept-source-agreements --accept-package-agreements"@)
}

pub open spec fn winget_install_command(
    id: Seq<char>,
    version: Option<Seq<char>>,
    o: WingetOptions,
) -> Seq<char> {
    "winget install --id "@ + id + " --exact"@ + match version {
        Some(v) => " --version "@ + v,
        None => seq![],
    } + winget_agreement_flags(o) + winget_interaction(o)
}

pub open spec fn winget_upgrade_command(id: Seq<char>, o: WingetOptions) -> Seq<char> {
    "winget upgrade --id "@ + id + " --exact"@ + winget_agreement_flags(o) + winget_interaction(o)
}

/// With agreements accepted, a winget install or upgrade passes both
/// `--accept-source-agreements` and `--accept-package-agreements` right
/// after the id (and pinned version), and without, neither; only the
/// interaction flag follows. Install and upgrade pass the same flags.
pub proof fn lemma_winget_agreements(id: Seq<char>, version: Option<Seq<char>>, o: WingetOptions)
    ensures
        ({
            let head = "winget install --id "@ + id + " --exact"@ + match version {
                Some(v) => " --version "@ + v,
                None => seq![],
            };
            let tail = if o.silent {
                " --silent"@
            } else if o.disable_interactivity {
                " --disable-interactivity"@
            } else {
                seq![]
            };
            &&& o.accept_agreement ==> winget_install_command(id, version, o) == head
                + " --accept-source-agreements --accept-package-agreements"@ + tail
            &&& !o.accept_agreement ==> winget_install_command(id, version, o) == head + tail
        }),
        ({
            let head = "winget upgrade --id "@ + id + " --exact"@;
            let tail = if o.silent {
                " --silent"@
            } else if o.disable_interactivity {
                " --disable-interactivity"@
            } else {
                seq![]
            };
            &&& o.accept_agreement ==> winget_upgrade_command(id, o) == head
                + " --accept-source-agreements --accept-package-agreements"@ + tail
            &&& !o.accept_agreement ==> winget_upgrade_command(id, o) == head + tail
        }),
        winget_install_command(id, None, o).skip(14) == winget_upgrade_command(id, o).skip(14),
{
    reveal_strlit("winget install --id ");
    reveal_strlit("winget upgrade --id ");
    let ti = "winget install --id "@ + id + " --exact"@ + winget_agreement_flags(o) + winget_interaction(o);
    let tu = "winget upgrade --id "@ + id + " --exact"@ + winget_agreement_flags(o) + winget_interaction(o);
    assert(winget_install_command(id, None, o) =~= ti);
    assert(ti.skip(14) =~= tu.skip(14));
    if o.accept_agreement {
        assert(winget_install_command(id, version, o) =~= "winget install --id "@ + id + " --exact"@ + match version {
            Some(v) => " --version "@ + v,
            None => seq![],
        } + " --accept-source-agreements --accept-package-agreements"@ + winget_interaction(o));
    } else {
        assert(winget_install_command(id, version, o) =~= "winget install --id "@ + id + " --exact"@ + match version {
            Some(v) => " --version "@ + v,
            None => seq![],
        } + winget_interaction(o));
        assert(winget_upgrade_command(id, o) =~= "winget upgrade --id "@ + id + " --exact"@ + winget_interaction(o));
    }
}

/// Uninstalling accepts only the source agreements.
pub open spec fn winget_uninstall_command(id: Seq<char>, o: WingetOptions) -> Seq<char> {
    "winget uninstall --id "@ + id + " --exact"@ + flag(
        o.accept_agreement,
        " --accept-source-agreements"@,
    ) + winget_interaction(o)
}

/// Appends `f` when `b` holds.
fn push_flag(cmd: &mut String, b: bool, f: &str)
    ensures
        final(cmd)@ == old(cmd)@ + flag(b, f@),
{
    if b {
        cmd.append(f);
    } else {
        assert(old(cmd)@ + flag(b, f@) =~= old(cmd)@);
    }
}

/// Appends `pre` and the value, when there is one.
fn push_opt(cmd: &mut String, pre: &str, v: Option<&str>)
    ensures
        final(cmd)@ == old(cmd)@ + match opt_str_view(v) {
            Some(x) => pre@ + x,
            None => seq![],
        },
{
    match v {
        Some(x) => {
            cmd.append(pre);
            cmd.append(x);
            assert(final(cmd)@ =~= old(cmd)@ + (pre@ + x@));
        },
        None => {
            assert(old(cmd)@ + Seq::<char>::empty() =~= old(cmd)@);
        },
    }
}

/// Checks an optional version the way ids are checked.
fn validate_opt(v: Option<&str>) -> (r: Result<(), BuildError>)
    ensures
        match v {
            Some(x) => match r {
                Ok(_) => check_id(x@) is Ok,
                Err(e) => check_id(x@) == Err::<(), BuildErrorView>(e@),
            },
            None => r is Ok,
        },
{
    match v {
        Some(x) => validate_id(x),
        None => Ok(()),
    }
}

/// The `choco install` command for the options given by reference.
pub fn choco_install(id: &str, version: Option<&str>, opts: &ChocoOptions) -> (r: Result<
    String,
    BuildError,
>)
    ensures
        built(r) == after_check(
            id@,
            match version {
                Some(v) => after_check(v@, Ok(choco_install_command(id@, opt_str_view(version), *opts))),
                None => Ok(choco_install_command(id@, opt_str_view(version), *opts)),
            },
        ),
{
    validate_id(id)?;
    validate_opt(version)?;
    let mut cmd = "choco install ".to_owned();
    cmd.append(id);
    push_opt(&mut cmd, " --version ", version);
    push_flag(&mut cmd, opts.yes, " -y");
    push_flag(&mut cmd, opts.force, " --force");
    push_flag(&mut cmd, opts.ignore_dependencies, " --ignore-dependencies");
    push_flag(&mut cmd, opts.allow_downgrade, " --allow-downgrade");
    push_flag(&mut cmd, opts.skip_power_shell, " --skip-scripts");
    push_flag(&mut cmd, opts.pre, " --pre");
    match &opts.params {
        Some(p) => {
            cmd.append(" --params=\"'");
            cmd.append(p.as_str());
            cmd.append("'\"");
        },
        None => {},
    }
    assert(cmd@ =~= choco_install_command(id@, opt_str_view(version), *opts));
    Ok(cmd)
}

pub fn build_choco_install(id: &str, version: Option<&str>, opts: ChocoOptions) -> (r: Result<
    String,
    BuildError,
>)
    ensures
        built(r) == after_check(
            id@,
            match version {
                Some(v) => after_check(v@, Ok(choco_install_command(id@, opt_str_view(version), opts))),
                None => Ok(choco_install_command(id@, opt_str_view(version), opts)),
            },
        ),
{
    choco_install(id, version, &opts)
}

/// The `scoop install` command for the options given by reference.
pub fn scoop_install(id: &str, version: Option<&str>, opts: &ScoopOptions) -> (r: Result<
    String,
    BuildError,
>)
    ensures
        built(r) == after_check(
            id@,
            match version {
                Some(v) => after_check(v@, Ok(scoop_install_command(id@, opt_str_view(version), *opts))),
                None => Ok(scoop_install_command(id@, opt_str_view(version), *opts)),
            },
        ),
{
    validate_id(id)?;
    validate_opt(version)?;
    let mut cmd = "scoop install ".to_owned();
    cmd.append(id);
    push_opt(&mut cmd, "@", version);
    push_flag(&mut cmd, opts.global, " -g");
    push_flag(&mut cmd, opts.independent, " -i");
    push_flag(&mut cmd, opts.no_cache, " -k");
    push_flag(&mut cmd, opts.skip_hash_check, " -s");
    match &opts.arch {
        Some(a) => {
            cmd.append(" --arch ");
            cmd.append(a.as_str());
        },
        None => {},
    }
    assert(cmd@ =~= scoop_install_command(id@, opt_str_view(version), *opts));
    Ok(cmd)
}

pub fn build_scoop_install(id: &str, version: Option<&str>, opts: ScoopOptions) -> (r: Result<
    String,
    BuildError,
>)
    ensures
        built(r) == after_check(
            id@,
            match version {
                Some(v) => after_check(v@, Ok(scoop_install_command(id@, opt_str_view(version), opts))),
                None => Ok(scoop_install_command(id@, opt_str_view(version), opts)),
            },
        ),
{
    scoop_install(id, version, &opts)
}

/// The `choco upgrade` command for the options given by reference.
pub fn choco_upgrade(id: &str, opts: &ChocoOptions) -> (r: Result<String, BuildError>)
    ensures
        built(r) == after_check(id@, Ok(choco_upgrade_command(id@, *opts))),
{
    validate_id(id)?;
    let mut cmd = "choco upgrade ".to_owned();
    cmd.append(id);
    push_flag(&mut cmd, opts.yes, " -y");
    push_flag(&mut cmd, opts.force, " --force");
    push_flag(&mut cmd, opts.pre, " --pre");
    assert(cmd@ =~= choco_upgrade_command(id@, *opts));
    Ok(cmd)
}

pub fn build_choco_upgrade(id: &str, opts: ChocoOptions) -> (r: Result<String, BuildError>)
    ensures
        built(r) == after_check(id@, Ok(choco_upgrade_command(id@, opts))),
{
    choco_upgrade(id, &opts)
}

/// The `scoop update` command for the options given by reference.
pub fn scoop_upgrade(id: &str, opts: &ScoopOptions) -> (r: Result<String, BuildError>)
    ensures
        built(r) == after_check(id@, Ok(scoop_upgrade_command(id@, *opts))),
{
    validate_id(id)?;
    let mut cmd = "scoop update ".to_owned();
    cmd.append(id);
    push_flag(&mut cmd, opts.global, " -g");
    assert(cmd@ =~= scoop_upgrade_command(id@, *opts));
    Ok(cmd)
}

pub fn build_scoop_upgrade(id: &str, opts: ScoopOptions) -> (r: Result<String, BuildError>)
    ensures
        built(r) == after_check(id@, Ok(scoop_upgrade_command(id@, opts))),
{
    scoop_upgrade(id, &opts)
}

/// The `choco uninstall` command for the options given by reference.
pub fn choco_uninstall(id: &str, opts: &ChocoOptions) -> (r: Result<String, BuildError>)
    ensures
        built(r) == after_check(id@, Ok(choco_uninstall_command(id@, *opts))),
{
    validate_id(id)?;
    let mut cmd = "choco uninstall ".to_owned();
    cmd.append(id);
    push_flag(&mut cmd, opts.yes, " -y");
    push_flag(&mut cmd, opts.force, " --force");
    push_flag(&mut cmd, opts.ignore_dependencies, " --ignore-dependencies");
    assert(cmd@ =~= choco_uninstall_command(id@, *opts));
    Ok(cmd)
}

pub fn build_choco_uninstall(id: &str, opts: ChocoOptions) -> (r: Result<String, BuildError>)
    ensures
        built(r) == after_check(id@, Ok(choco_uninstall_command(id@, opts))),
{
    choco_uninstall(id, &opts)
}

/// The `scoop uninstall` command for the options given by reference.
pub fn scoop_uninstall(id: &str, opts: &ScoopOptions) -> (r: Result<String, BuildError>)
    ensures
        built(r) == after_check(id@, Ok(scoop_uninstall_command(id@, *opts))),
{
    validate_id(id)?;
    let mut cmd = "scoop uninstall ".to_owned();
    cmd.append(id);
    push_flag(&mut cmd, opts.global, " -g");
    assert(cmd@ =~= scoop_uninstall_command(id@, *opts));
    Ok(cmd)
}

pub fn build_scoop_uninstall(id: &str, opts: ScoopOptions) -> (r: Result<String, BuildError>)
    ensures
        built(r) == after_check(id@, Ok(scoop_uninstall_command(id@, opts))),
{
    scoop_uninstall(id, &opts)
}

/// `pre` + id + `post`, once the id is accepted.
fn wrap_id(pre: &str, id: &str, post: &str) -> (r: Result<String, BuildError>)
    ensures
        built(r) == after_check(id@, Ok(pre@ + id@ + post@)),
{
    validate_id(id)?;
    let mut cmd = pre.to_owned();
    cmd.append(id);
    cmd.append(post);
    Ok(cmd)
}

pub fn build_choco_search(id: &str) -> (r: Result<String, BuildError>)
    ensures
        built(r) == after_check(id@, Ok("choco search "@ + id@ + " --limit-output"@)),
{
    wrap_id("choco search ", id, " --limit-output")
}

pub fn build_scoop_info(id: &str) -> (r: Result<String, BuildError>)
    ensures
        built(r) == after_check(id@, Ok("scoop info "@ + id@ + ""@)),
{
    wrap_id("scoop info ", id, "")
}

/// `scoop bucket add`, with the URL when one is given; the name is checked
/// like an id, the URL is not.
pub fn build_scoop_bucket_add(name: &str, url: Option<&str>) -> (r: Result<String, BuildError>)
    ensures
        built(r) == after_check(
            name@,
            Ok(
                "scoop bucket add "@ + name@ + match url {
                    Some(u) => " "@ + u@,
                    None => seq![],
                },
            ),
        ),
{
    validate_id(name)?;
    let mut cmd = "scoop bucket add ".to_owned();
    cmd.append(name);
    push_opt(&mut cmd, " ", url);
    Ok(cmd)
}

pub fn build_scoop_bucket_remove(name: &str) -> (r: Result<String, BuildError>)
    ensures
        built(r) == after_check(name@, Ok("scoop bucket rm "@ + name@ + ""@)),
{
    wrap_id("scoop bucket rm ", name, "")
}

pub fn build_scoop_bucket_list() -> (r: String)
    ensures
        r@ == "scoop bucket list"@,
{
    "scoop bucket list".to_owned()
}

pub fn build_choco_version() -> (r: String)
    ensures
        r@ == "choco --version"@,
{
    "choco --version".to_owned()
}

pub fn build_scoop_version() -> (r: String)
    ensures
        r@ == "scoop --version"@,
{
    "scoop --version".to_owned()
}

pub fn build_winget_version() -> (r: String)
    ensures
        r@ == "winget --version"@,
{
    "winget --version".to_owned()
}

pub fn build_choco_list_installed() -> (r: String)
    ensures
        r@ == "choco list -r --local-only --limit-output"@,
{
    "choco list -r --local-only --limit-output".to_owned()
}

pub fn build_scoop_list_installed() -> (r: String)
    ensures
        r@ == "scoop list"@,
{
    "scoop list".to_owned()
}

pub fn build_choco_outdated() -> (r: String)
    ensures
        r@ == "choco outdated --limit-output"@,
{
    "choco outdated --limit-output".to_owned()
}

pub fn build_scoop_status() -> (r: String)
    ensures
        r@ == "scoop status --json"@,
{
    "scoop status --json".to_owned()
}

pub fn build_winget_list() -> (r: String)
    ensures
        r@ == "winget list --accept-source-agreements"@,
{
    "winget list --accept-source-agreements".to_owned()
}

/// The PowerShell script that registers the App Installer package (which
/// provides winget) or, failing that, opens its Store page.
pub open spec fn install_winget_script() -> Seq<char> {
    "if (-not (Get-Command winget -ErrorAction SilentlyContinue)) {\n            try {\n                Add-AppxPackage -Register \"C:\\Program Files\\WindowsApps\\Microsoft.DesktopAppInstaller_*_x64__8wekyb3d8bbwe\\AppxManifest.xml\" -DisableDevelopmentMode 2>$null\n            } catch {\n                Start-Process -FilePath \"ms-windows-store:\" -ArgumentList \"pdp?ProductId=9NBLGGH4NNS1\" -PassThru | Out-Null\n            }\n        }"@
}

pub fn build_powershell_install_winget() -> (r: String)
    ensures
        r@ == install_winget_script(),
{
    "if (-not (Get-Command winget -ErrorAction SilentlyContinue)) {\n            try {\n                Add-AppxPackage -Register \"C:\\Program Files\\WindowsApps\\Microsoft.DesktopAppInstaller_*_x64__8wekyb3d8bbwe\\AppxManifest.xml\" -DisableDevelopmentMode 2>$null\n            } catch {\n                Start-Process -FilePath \"ms-windows-store:\" -ArgumentList \"pdp?ProductId=9NBLGGH4NNS1\" -PassThru | Out-Null\n            }\n        }".to_owned()
}

fn winget_flags(opts: &WingetOptions) -> (r: String)
    ensures
        r@ == winget_interaction(*opts),
{
    if opts.silent {
        " --silent".to_owned()
    } else if opts.disable_interactivity {
        " --disable-interactivity".to_owned()
    } else {
        String::new()
    }
}

fn winget_agreements(opts: &WingetOptions) -> (r: &'static str)
    ensures
        r@ == winget_agreement_flags(*opts),
{
    if opts.accept_agreement {
        " --accept-source-agreements --accept-package-agreements"
    } else {
        proof {
            reveal_strlit("");
        }
        ""
    }
}

pub fn build_winget_install(id: &str, version: Option<&str>, opts: WingetOptions) -> (r: Result<
    String,
    BuildError,
>)
    ensures
        built(r) == after_check(
            id@,
            match version {
                Some(v) => after_check(v@, Ok(winget_install_command(id@, opt_str_view(version), opts))),
                None => Ok(winget_install_command(id@, opt_str_view(version), opts)),
            },
        ),
{
    validate_id(id)?;
    validate_opt(version)?;
    let mut cmd = "winget install --id ".to_owned();
    cmd.append(id);
    cmd.append(" --exact");
    push_opt(&mut cmd, " --version ", version);
    cmd.append(winget_agreements(&opts));
    let f = winget_flags(&opts);
    cmd.append(f.as_str());
    assert(cmd@ =~= winget_install_command(id@, opt_str_view(version), opts));
    Ok(cmd)
}

pub fn build_winget_upgrade(id: &str, opts: WingetOptions) -> (r: Result<String, BuildError>)
    ensures
        built(r) == after_check(id@, Ok(winget_upgrade_command(id@, opts))),
{
    validate_id(id)?;
    let mut cmd = "winget upgrade --id ".to_owned();
    cmd.append(id);
    cmd.append(" --exact");
    cmd.append(winget_agreements(&opts));
    let f = winget_flags(&opts);
    cmd.append(f.as_str());
    assert(cmd@ =~= winget_upgrade_command(id@, opts));
    Ok(cmd)
}

pub fn build_winget_uninstall(id: &str, opts: WingetOptions) -> (r: Result<String, BuildError>)
    ensures
        built(r) == after_check(id@, Ok(winget_uninstall_command(id@, opts))),
{
    validate_id(id)?;
    let mut cmd = "winget uninstall --id ".to_owned();
    cmd.append(id);
    cmd.append(" --exact");
    push_flag(&mut cmd, opts.accept_agreement, " --accept-source-agreements");
    let f = winget_flags(&opts);
    cmd.append(f.as_str());
    assert(cmd@ =~= winget_uninstall_command(id@, opts));
    Ok(cmd)
}

pub fn build_winget_search(id: &str) -> (r: Result<String, BuildError>)
    ensures
        built(r) == after_check(
            id@,
            Ok("winget search --id "@ + id@ + " --exact --accept-source-agreements"@),
        ),
{
    wrap_id("winget search --id ", id, " --exact --accept-source-agreements")
}

} // verus!
