//! The decisions of an apply: which command each operation runs, and how
//! the state records what succeeded.
use vstd::prelude::*;

use crate::diff::diff_engine::{ci_get, ci_lookup, strings_contain};
use crate::hash::{hex_lower, sha256, sha256_hex};
use crate::models::{
    diff_result::{strings_view, DiffResult, DiffResultView},
    options::{NTIXOptions, ScoopBucket, ScoopBucketView},
    package_manager::{manager_name, PackageManager},
    package_spec::{specs_view, PackageSpec, PackageSpecView},
    state::State,
};
use crate::package_manager::command_builder::{
    after_check, built, check_id, choco_install, choco_install_command, choco_uninstall,
    choco_uninstall_command, choco_upgrade, choco_upgrade_command, scoop_install,
    scoop_install_command, scoop_uninstall, scoop_uninstall_command, scoop_upgrade,
    scoop_upgrade_command, build_winget_install, build_winget_uninstall, build_winget_upgrade,
    winget_install_command, winget_uninstall_command, winget_upgrade_command, BuildError,
    BuildErrorView,
};
use crate::str_map::{
    StrMap,
    keys_unique, lemma_insert, lemma_map_vals, lemma_remove, lookup, map_vals, pairs_insert, pairs_remove,
    string_pairs,
};
use crate::text::{copy_opt_string, opt_view, str_equal};

verus! {

/// The manager a source names exactly.
pub open spec fn source_manager(source: Seq<char>) -> Option<PackageManager> {
    if source == manager_name(PackageManager::Winget) {
        Some(PackageManager::Winget)
    } else if source == manager_name(PackageManager::Chocolatey) {
        Some(PackageManager::Chocolatey)
    } else if source == manager_name(PackageManager::Scoop) {
        Some(PackageManager::Scoop)
    } else {
        None
    }
}

/// The manager a source names exactly.
pub fn manager_of(source: &str) -> (r: Option<PackageManager>)
    ensures
        r == source_manager(source@),
{
    if str_equal(source, PackageManager::Winget.as_str()) {
        Some(PackageManager::Winget)
    } else if str_equal(source, PackageManager::Chocolatey.as_str()) {
        Some(PackageManager::Chocolatey)
    } else if str_equal(source, PackageManager::Scoop.as_str()) {
        Some(PackageManager::Scoop)
    } else {
        None
    }
}

/// Whether the manager a source names is enabled; an unknown source is not.
pub open spec fn source_enabled(source: Seq<char>, options: NTIXOptions) -> bool {
    match source_manager(source) {
        Some(PackageManager::Winget) => options.winget.enable,
        Some(PackageManager::Chocolatey) => options.chocolatey.enable,
        Some(PackageManager::Scoop) => options.scoop.enable,
        None => false,
    }
}

pub fn is_enabled(source: &str, options: &NTIXOptions) -> (b: bool)
    ensures
        b == source_enabled(source@, *options),
{
    match manager_of(source) {
        Some(PackageManager::Winget) => options.winget.enable,
        Some(PackageManager::Chocolatey) => options.chocolatey.enable,
        Some(PackageManager::Scoop) => options.scoop.enable,
        None => false,
    }
}

/// The packages the state manages, per manager.
pub struct ManagedView {
    pub winget: Seq<(Seq<char>, Seq<char>)>,
    pub chocolatey: Seq<(Seq<char>, Seq<char>)>,
    pub scoop: Seq<(Seq<char>, Seq<char>)>,
}

pub open spec fn managed_view(s: State) -> ManagedView {
    ManagedView {
        winget: string_pairs(s.winget@),
        chocolatey: string_pairs(s.chocolatey@),
        scoop: string_pairs(s.scoop@),
    }
}

/// The version a package is recorded with: its own, or `latest`.
pub open spec fn recorded_version(v: Option<Seq<char>>) -> Seq<char> {
    match v {
        Some(x) => x,
        None => "latest"@,
    }
}

/// One manager's packages after recording a package as installed (stored
/// under its id) or as removed (its id dropped).
pub open spec fn after_record(
    p: Seq<(Seq<char>, Seq<char>)>,
    pkg: PackageSpecView,
    installed: bool,
) -> Seq<(Seq<char>, Seq<char>)> {
    if installed {
        pairs_insert(p, pkg.id, recorded_version(pkg.version))
    } else {
        pairs_remove(p, pkg.id)
    }
}

/// The managed packages after recording one package with its manager.
pub open spec fn record_one(m: ManagedView, pkg: PackageSpecView, installed: bool) -> ManagedView {
    match source_manager(pkg.source) {
        Some(PackageManager::Winget) => ManagedView { winget: after_record(m.winget, pkg, installed), ..m },
        Some(PackageManager::Chocolatey) => ManagedView {
            chocolatey: after_record(m.chocolatey, pkg, installed),
            ..m
        },
        Some(PackageManager::Scoop) => ManagedView { scoop: after_record(m.scoop, pkg, installed), ..m },
        None => m,
    }
}

/// The managed packages after recording each of `pkgs` in order.
pub open spec fn record_all(m: ManagedView, pkgs: Seq<PackageSpecView>, installed: bool) -> ManagedView
    decreases pkgs.len(),
{
    if pkgs.len() == 0 {
        m
    } else {
        record_one(record_all(m, pkgs.drop_last(), installed), pkgs.last(), installed)
    }
}

/// One manager's packages.
pub open spec fn managed_list(m: ManagedView, mgr: PackageManager) -> Seq<(Seq<char>, Seq<char>)> {
    match mgr {
        PackageManager::Winget => m.winget,
        PackageManager::Chocolatey => m.chocolatey,
        PackageManager::Scoop => m.scoop,
    }
}

/// What is recorded is read back: after recording a package, its manager
/// holds its version (or `latest`) under its id when installed and nothing
/// when removed; every other id and every other manager are unchanged.
pub proof fn lemma_record_read_back(m: ManagedView, pkg: PackageSpecView, installed: bool, mgr: PackageManager)
    requires
        keys_unique(m.winget),
        keys_unique(m.chocolatey),
        keys_unique(m.scoop),
        source_manager(pkg.source) == Some(mgr),
    ensures
        lookup(managed_list(record_one(m, pkg, installed), mgr), pkg.id) == if installed {
            Some(recorded_version(pkg.version))
        } else {
            None
        },
        forall|k: Seq<char>| k != pkg.id ==> #[trigger] lookup(managed_list(record_one(m, pkg, installed), mgr), k)
            == lookup(managed_list(m, mgr), k),
        forall|other: PackageManager| other != mgr ==> #[trigger] managed_list(record_one(m, pkg, installed), other)
            == managed_list(m, other),
        keys_unique(managed_list(record_one(m, pkg, installed), mgr)),
{
    let l = managed_list(m, mgr);
    lemma_insert(l, pkg.id, recorded_version(pkg.version));
    lemma_remove(l, pkg.id);
}

/// Records a package with its manager: stored under its id with its version
/// (or `latest`) when installed, dropped when removed.
pub fn update_state(state: &mut State, pkg: &PackageSpec, installed: bool)
    requires
        source_manager(pkg.source@) is Some,
    ensures
        managed_view(*final(state)) == record_one(managed_view(*old(state)), pkg@, installed),
        final(state).version == old(state).version,
        final(state).scoop_buckets == old(state).scoop_buckets,
        final(state).config_files == old(state).config_files,
{
    let v = match &pkg.version {
        Some(v) => v.clone(),
        None => "latest".to_owned(),
    };
    let ghost f = |s: String| s@;
    proof {
        lemma_map_vals(state.winget@, f, pkg.id@, v);
        lemma_map_vals(state.chocolatey@, f, pkg.id@, v);
        lemma_map_vals(state.scoop@, f, pkg.id@, v);
    }
    assert(v@ == recorded_version(pkg@.version));
    match manager_of(pkg.source.as_str()) {
        Some(PackageManager::Winget) => {
            if installed {
                state.winget.insert(pkg.id.clone(), v);
            } else {
                state.winget.remove(pkg.id.as_str());
            }
        },
        Some(PackageManager::Chocolatey) => {
            if installed {
                state.chocolatey.insert(pkg.id.clone(), v);
            } else {
                state.chocolatey.remove(pkg.id.as_str());
            }
        },
        Some(PackageManager::Scoop) => {
            if installed {
                state.scoop.insert(pkg.id.clone(), v);
            } else {
                state.scoop.remove(pkg.id.as_str());
            }
        },
        None => {},
    }
    assert(managed_view(*state) == record_one(managed_view(*old(state)), pkg@, installed));
}

/// Records each adopted package as installed, in order.
pub fn adopt_packages(state: &mut State, pkgs: &Vec<PackageSpec>)
    requires
        forall|i: int| 0 <= i < pkgs@.len() ==> source_manager((#[trigger] pkgs@[i]).source@) is Some,
    ensures
        managed_view(*final(state)) == record_all(managed_view(*old(state)), specs_view(pkgs@), true),
        final(state).version == old(state).version,
        final(state).scoop_buckets == old(state).scoop_buckets,
        final(state).config_files == old(state).config_files,
{
    let ghost ps = specs_view(pkgs@);
    let mut i: usize = 0;
    assert(ps.take(0) == Seq::<PackageSpecView>::empty());
    while i < pkgs.len()
        invariant
            i <= pkgs@.len(),
            ps == specs_view(pkgs@),
            forall|j: int| 0 <= j < pkgs@.len() ==> source_manager((#[trigger] pkgs@[j]).source@) is Some,
            managed_view(*state) == record_all(managed_view(*old(state)), ps.take(i as int), true),
            state.version == old(state).version,
            state.scoop_buckets == old(state).scoop_buckets,
            state.config_files == old(state).config_files,
        decreases pkgs.len() - i,
    {
        assert(ps.take(i + 1).drop_last() == ps.take(i as int));
        assert(ps.take(i + 1).last() == pkgs@[i as int]@);
        update_state(state, &pkgs[i], true);
        i = i + 1;
    }
    assert(ps.take(ps.len() as int) == ps);
}

/// What an apply does to a package.
#[derive(Debug, Clone, Copy, PartialEq, Eq, Structural)]
pub enum Operation {
    Install,
    Upgrade,
    Remove,
}

/// How one operation is carried out.
#[derive(Debug)]
pub enum Action {
    /// The package's manager is disabled: nothing runs and the operation
    /// counts as done.
    Skip,
    /// Run the command; it succeeds when it exits with 0.
    Run(String),
    /// The command could not be built; the operation fails.
    BuildFailed(BuildError),
    /// No manager handles the package; the operation fails.
    Unsupported,
}

pub enum ActionView {
    Skip,
    Run(Seq<char>),
    BuildFailed(BuildErrorView),
    Unsupported,
}

impl View for Action {
    type V = ActionView;

    open spec fn view(&self) -> ActionView {
        match self {
            Action::Skip => ActionView::Skip,
            Action::Run(c) => ActionView::Run(c@),
            Action::BuildFailed(e) => ActionView::BuildFailed(e@),
            Action::Unsupported => ActionView::Unsupported,
        }
    }
}

/// Running a built command, or failing on the build error.
pub open spec fn from_build(r: Result<Seq<char>, BuildErrorView>) -> ActionView {
    match r {
        Ok(c) => ActionView::Run(c),
        Err(e) => ActionView::BuildFailed(e),
    }
}

/// How an operation on a package is carried out: installs and upgrades of
/// a package whose manager is not enabled are skipped; otherwise the built
/// command runs (or the operation fails on the build error); removing a
/// package of an unknown manager is unsupported.
pub open spec fn planned(options: NTIXOptions, op: Operation, pkg: PackageSpecView) -> ActionView {
    if op != Operation::Remove && !source_enabled(pkg.source, options) {
        ActionView::Skip
    } else {
        match source_manager(pkg.source) {
            Some(PackageManager::Winget) => match op {
                Operation::Install => from_build(
                    after_check(
                        pkg.id,
                        match pkg.version {
                            Some(v) => after_check(v, Ok(winget_install_command(pkg.id, pkg.version, options.winget))),
                            None => Ok(winget_install_command(pkg.id, pkg.version, options.winget)),
                        },
                    ),
                ),
                Operation::Upgrade => from_build(after_check(pkg.id, Ok(winget_upgrade_command(pkg.id, options.winget)))),
                Operation::Remove => from_build(
                    after_check(pkg.id, Ok(winget_uninstall_command(pkg.id, options.winget))),
                ),
            },
            Some(PackageManager::Chocolatey) => from_build(
                match op {
                    Operation::Install => after_check(
                        pkg.id,
                        match pkg.version {
                            Some(v) => after_check(
                                v,
                                Ok(choco_install_command(pkg.id, pkg.version, options.chocolatey)),
                            ),
                            None => Ok(choco_install_command(pkg.id, pkg.version, options.chocolatey)),
                        },
                    ),
                    Operation::Upgrade => after_check(
                        pkg.id,
                        Ok(choco_upgrade_command(pkg.id, options.chocolatey)),
                    ),
                    Operation::Remove => after_check(
                        pkg.id,
                        Ok(choco_uninstall_command(pkg.id, options.chocolatey)),
                    ),
                },
            ),
            Some(PackageManager::Scoop) => from_build(
                match op {
                    Operation::Install => after_check(
                        pkg.id,
                        match pkg.version {
                            Some(v) => after_check(
                                v,
                                Ok(scoop_install_command(pkg.id, pkg.version, options.scoop)),
                            ),
                            None => Ok(scoop_install_command(pkg.id, pkg.version, options.scoop)),
                        },
                    ),
                    Operation::Upgrade => after_check(
                        pkg.id,
                        Ok(scoop_upgrade_command(pkg.id, options.scoop)),
                    ),
                    Operation::Remove => after_check(
                        pkg.id,
                        Ok(scoop_uninstall_command(pkg.id, options.scoop)),
                    ),
                },
            ),
            None => ActionView::Unsupported,
        }
    }
}

fn run_built(r: Result<String, BuildError>) -> (a: Action)
    ensures
        a@ == from_build(built(r)),
{
    match r {
        Ok(c) => Action::Run(c),
        Err(e) => Action::BuildFailed(e),
    }
}

fn version_str(v: &Option<String>) -> (r: Option<&str>)
    ensures
        match r {
            Some(x) => v.is_some() && x@ == v.unwrap()@,
            None => v.is_none(),
        },
{
    match v {
        Some(s) => Some(s.as_str()),
        None => None,
    }
}

/// How to carry out an operation on a package.
pub fn plan_operation(options: &NTIXOptions, op: Operation, pkg: &PackageSpec) -> (a: Action)
    ensures
        a@ == planned(*options, op, pkg@),
{
    if op != Operation::Remove && !is_enabled(pkg.source.as_str(), options) {
        return Action::Skip;
    }
    let version = version_str(&pkg.version);
    assert(crate::text::opt_str_view(version) == pkg@.version);
    match manager_of(pkg.source.as_str()) {
        Some(PackageManager::Winget) => match op {
            Operation::Install => run_built(build_winget_install(pkg.id.as_str(), version, options.winget)),
            Operation::Upgrade => run_built(build_winget_upgrade(pkg.id.as_str(), options.winget)),
            Operation::Remove => run_built(build_winget_uninstall(pkg.id.as_str(), options.winget)),
        },
        Some(PackageManager::Chocolatey) => match op {
            Operation::Install => run_built(choco_install(pkg.id.as_str(), version, &options.chocolatey)),
            Operation::Upgrade => run_built(choco_upgrade(pkg.id.as_str(), &options.chocolatey)),
            Operation::Remove => run_built(choco_uninstall(pkg.id.as_str(), &options.chocolatey)),
        },
        Some(PackageManager::Scoop) => match op {
            Operation::Install => run_built(scoop_install(pkg.id.as_str(), version, &options.scoop)),
            Operation::Upgrade => run_built(scoop_upgrade(pkg.id.as_str(), &options.scoop)),
            Operation::Remove => run_built(scoop_uninstall(pkg.id.as_str(), &options.scoop)),
        },
        None => Action::Unsupported,
    }
}

/// Records the outcome of a carried-out operation: a success stores the
/// package (install, upgrade) or drops it (remove); a failure changes
/// nothing. Returns whether it succeeded.
pub fn record_operation(state: &mut State, op: Operation, pkg: &PackageSpec, success: bool) -> (r:
    bool)
    requires
        success ==> source_manager(pkg.source@) is Some,
    ensures
        r == success,
        managed_view(*final(state)) == if success {
            record_one(managed_view(*old(state)), pkg@, op != Operation::Remove)
        } else {
            managed_view(*old(state))
        },
        final(state).version == old(state).version,
        final(state).scoop_buckets == old(state).scoop_buckets,
        final(state).config_files == old(state).config_files,
{
    if success {
        update_state(state, pkg, op != Operation::Remove);
    }
    success
}

/// Whether an operation whose command failed left the machine as wanted
/// all the same: an install whose package the manager now lists (ids
/// compared ignoring ASCII case), or a removal whose package it no longer
/// lists. `listed` is what the manager listed afterwards, `None` when the
/// listing failed; upgrades are never settled this way.
pub open spec fn settled_anyway(op: Operation, listed: Option<Seq<(Seq<char>, String)>>, id: Seq<char>) -> bool {
    match listed {
        None => false,
        Some(m) => match op {
            Operation::Install => ci_get(m, id) is Some,
            Operation::Remove => ci_get(m, id) is None,
            Operation::Upgrade => false,
        },
    }
}

/// Whether an operation counts as done: its command succeeded, or it left
/// the machine as wanted anyway (see `settled_anyway`).
pub fn operation_settled(op: Operation, command_ok: bool, listed: Option<&StrMap<String>>, id: &String) -> (b: bool)
    ensures
        b == (command_ok || settled_anyway(
            op,
            match listed {
                Some(m) => Some(m@),
                None => None,
            },
            id@,
        )),
{
    if command_ok {
        return true;
    }
    match listed {
        None => false,
        Some(m) => match op {
            Operation::Install => ci_lookup(m, id).is_some(),
            Operation::Remove => ci_lookup(m, id).is_none(),
            Operation::Upgrade => false,
        },
    }
}

/// Whether a failed operation is worth checking against the manager's list:
/// a command ran for an install or a removal.
pub fn needs_recheck(op: Operation, action: &Action) -> (b: bool)
    ensures
        b == (op != Operation::Upgrade && action@ is Run),
{
    op != Operation::Upgrade && match action {
        Action::Run(_) => true,
        _ => false,
    }
}

/// The package operations of an apply, in the order they run: every install,
/// then every upgrade, then every removal, each in list order.
pub open spec fn apply_order_spec(d: DiffResultView) -> Seq<(Operation, PackageSpecView)> {
    d.to_install.map_values(|p: PackageSpecView| (Operation::Install, p)) + d.to_upgrade.map_values(
        |p: PackageSpecView| (Operation::Upgrade, p),
    ) + d.to_remove.map_values(|p: PackageSpecView| (Operation::Remove, p))
}

/// The views of a list of operations.
pub open spec fn ops_view(v: Seq<(Operation, PackageSpec)>) -> Seq<(Operation, PackageSpecView)> {
    v.map_values(|o: (Operation, PackageSpec)| (o.0, o.1@))
}

fn push_ops(ops: &mut Vec<(Operation, PackageSpec)>, pkgs: &Vec<PackageSpec>, op: Operation)
    ensures
        ops_view(final(ops)@) == ops_view(old(ops)@) + specs_view(pkgs@).map_values(
            |p: PackageSpecView| (op, p),
        ),
{
    let ghost start = ops_view(ops@);
    let ghost all = specs_view(pkgs@).map_values(|p: PackageSpecView| (op, p));
    let mut i: usize = 0;
    assert(ops_view(ops@) =~= start + all.take(0));
    while i < pkgs.len()
        invariant
            i <= pkgs@.len(),
            all == specs_view(pkgs@).map_values(|p: PackageSpecView| (op, p)),
            ops_view(ops@) == start + all.take(i as int),
        decreases pkgs.len() - i,
    {
        let ghost before = ops@;
        ops.push((op, pkgs[i].copy()));
        assert(ops_view(ops@) =~= ops_view(before).push(all[i as int]));
        assert(all.take(i + 1) =~= all.take(i as int).push(all[i as int]));
        i = i + 1;
    }
    assert(all.take(pkgs@.len() as int) == all);
}

/// The package operations of an apply, in the order they run: installs,
/// then upgrades, then removals, each in list order.
pub fn apply_order(diff: &DiffResult) -> (ops: Vec<(Operation, PackageSpec)>)
    ensures
        ops_view(ops@) == apply_order_spec(diff@),
{
    let mut ops: Vec<(Operation, PackageSpec)> = Vec::new();
    assert(ops_view(ops@) =~= Seq::<(Operation, PackageSpecView)>::empty());
    push_ops(&mut ops, &diff.to_install, Operation::Install);
    push_ops(&mut ops, &diff.to_upgrade, Operation::Upgrade);
    push_ops(&mut ops, &diff.to_remove, Operation::Remove);
    assert(ops_view(ops@) =~= apply_order_spec(diff@));
    ops
}

/// One step of the apply loop after an operation: the overall result so far
/// (it stays true only while every operation succeeds), and whether to stop
/// now (a failure when stopping on failure was asked for).
pub fn after_operation(stop_on_failure: bool, all_ok: bool, op_ok: bool) -> (r: (bool, bool))
    ensures
        r.0 == (all_ok && op_ok),
        r.1 == (!op_ok && stop_on_failure),
{
    (all_ok && op_ok, !op_ok && stop_on_failure)
}

/// The overall result of the apply loop over the outcomes of its operations,
/// and how many operations ran: all of them, unless stopping on failure was
/// asked for, in which case the loop ends with the first failure.
pub open spec fn apply_outcome(stop_on_failure: bool, all_ok: bool, outcomes: Seq<bool>) -> (bool, nat)
    decreases outcomes.len(),
{
    if outcomes.len() == 0 {
        (all_ok, 0)
    } else if !outcomes[0] && stop_on_failure {
        (false, 1)
    } else {
        let rest = apply_outcome(stop_on_failure, all_ok && outcomes[0], outcomes.drop_first());
        (rest.0, rest.1 + 1)
    }
}

/// The apply loop fails exactly when some operation it ran failed (or it
/// started failed), and without stopping on failure every operation runs.
pub proof fn lemma_apply_outcome(stop_on_failure: bool, all_ok: bool, outcomes: Seq<bool>)
    ensures
        apply_outcome(stop_on_failure, all_ok, outcomes).1 <= outcomes.len(),
        outcomes.len() > 0 ==> apply_outcome(stop_on_failure, all_ok, outcomes).1 >= 1,
        apply_outcome(stop_on_failure, all_ok, outcomes).0 == (all_ok && forall|i: int|
            0 <= i < apply_outcome(stop_on_failure, all_ok, outcomes).1 ==> #[trigger] outcomes[i]),
        !stop_on_failure ==> apply_outcome(stop_on_failure, all_ok, outcomes).1 == outcomes.len(),
        stop_on_failure && apply_outcome(stop_on_failure, all_ok, outcomes).1 < outcomes.len() ==> !outcomes[apply_outcome(stop_on_failure, all_ok, outcomes).1 - 1],
    decreases outcomes.len(),
{
    if outcomes.len() > 0 && !(!outcomes[0] && stop_on_failure) {
        let rest = outcomes.drop_first();
        lemma_apply_outcome(stop_on_failure, all_ok && outcomes[0], rest);
        let r = apply_outcome(stop_on_failure, all_ok && outcomes[0], rest);
        assert forall|i: int| 1 <= i < r.1 + 1 implies #[trigger] outcomes[i] == rest[i - 1] by {}
        if r.0 {
            assert forall|i: int| 0 <= i < r.1 + 1 implies #[trigger] outcomes[i] by {
                if i > 0 {
                    assert(rest[i - 1]);
                }
            }
        }
        if all_ok && (forall|i: int| 0 <= i < r.1 + 1 ==> #[trigger] outcomes[i]) {
            assert forall|i: int| 0 <= i < r.1 implies #[trigger] rest[i] by {
                assert(outcomes[i + 1] == rest[i]);
            }
            assert(outcomes[0]);
        }
        if stop_on_failure && r.1 + 1 < outcomes.len() && r.1 > 0 {
            assert(outcomes[r.1 as int] == rest[r.1 - 1]);
        }
    }
}

/// Records a bucket change once its command has run: when the command
/// succeeded, an added bucket is stored with its URL and a removed one is
/// dropped; when it failed, the state is left as it was.
pub fn record_bucket(state: &mut State, bucket: &ScoopBucket, adding: bool, command_ok: bool) -> (r: bool)
    ensures
        r == command_ok,
        bucket_pairs(final(state).scoop_buckets@) == if !command_ok {
            bucket_pairs(old(state).scoop_buckets@)
        } else if adding {
            pairs_insert(bucket_pairs(old(state).scoop_buckets@), bucket@.name, bucket@.url)
        } else {
            pairs_remove(bucket_pairs(old(state).scoop_buckets@), bucket@.name)
        },
        !command_ok ==> final(state).scoop_buckets == old(state).scoop_buckets,
        managed_view(*final(state)) == managed_view(*old(state)),
        final(state).version == old(state).version,
        final(state).config_files == old(state).config_files,
{
    if command_ok {
        if adding {
            record_bucket_added(state, bucket);
        } else {
            record_bucket_removed(state, bucket);
        }
    }
    command_ok
}

/// The buckets of the state, URLs taken by their characters.
pub open spec fn bucket_pairs(p: Seq<(Seq<char>, Option<String>)>) -> Seq<(Seq<char>, Option<Seq<char>>)> {
    map_vals(p, |u: Option<String>| opt_view(u))
}

/// Records a bucket that was added: it is stored with its URL.
pub fn record_bucket_added(state: &mut State, bucket: &ScoopBucket)
    ensures
        bucket_pairs(final(state).scoop_buckets@) == pairs_insert(
            bucket_pairs(old(state).scoop_buckets@),
            bucket@.name,
            bucket@.url,
        ),
        managed_view(*final(state)) == managed_view(*old(state)),
        final(state).version == old(state).version,
        final(state).config_files == old(state).config_files,
{
    let url = copy_opt_string(&bucket.url);
    proof {
        lemma_map_vals(state.scoop_buckets@, |u: Option<String>| opt_view(u), bucket.name@, url);
    }
    state.scoop_buckets.insert(bucket.name.clone(), url);
}

/// Records a bucket that was removed: it is dropped.
pub fn record_bucket_removed(state: &mut State, bucket: &ScoopBucket)
    ensures
        bucket_pairs(final(state).scoop_buckets@) == pairs_remove(
            bucket_pairs(old(state).scoop_buckets@),
            bucket@.name,
        ),
        managed_view(*final(state)) == managed_view(*old(state)),
        final(state).version == old(state).version,
        final(state).config_files == old(state).config_files,
{
    proof {
        lemma_map_vals(state.scoop_buckets@, |u: Option<String>| opt_view(u), bucket.name@, None);
    }
    state.scoop_buckets.remove(bucket.name.as_str());
}

/// Records a config file that was written: its destination is stored with
/// the hash of the content written.
pub fn record_config_file(state: &mut State, dest: &String, content: &[u8])
    ensures
        string_pairs(final(state).config_files@) == pairs_insert(
            string_pairs(old(state).config_files@),
            dest@,
            hex_lower(sha256(content@)),
        ),
        managed_view(*final(state)) == managed_view(*old(state)),
        final(state).version == old(state).version,
        final(state).scoop_buckets == old(state).scoop_buckets,
{
    let h = sha256_hex(content);
    proof {
        lemma_map_vals(state.config_files@, |s: String| s@, dest@, h);
    }
    state.config_files.insert(dest.clone(), h);
}

/// The stored config files after dropping each destination in order.
pub open spec fn forget_all(p: Seq<(Seq<char>, Seq<char>)>, dests: Seq<Seq<char>>) -> Seq<
    (Seq<char>, Seq<char>),
>
    decreases dests.len(),
{
    if dests.len() == 0 {
        p
    } else {
        pairs_remove(forget_all(p, dests.drop_last()), dests.last())
    }
}

/// Stops managing the given config files; the files themselves stay.
pub fn forget_config_files(state: &mut State, dests: &Vec<String>)
    ensures
        string_pairs(final(state).config_files@) == forget_all(
            string_pairs(old(state).config_files@),
            strings_view(dests@),
        ),
        managed_view(*final(state)) == managed_view(*old(state)),
        final(state).version == old(state).version,
        final(state).scoop_buckets == old(state).scoop_buckets,
{
    let ghost ds = strings_view(dests@);
    let mut i: usize = 0;
    assert(ds.take(0) == Seq::<Seq<char>>::empty());
    while i < dests.len()
        invariant
            i <= dests@.len(),
            ds == strings_view(dests@),
            string_pairs(state.config_files@) == forget_all(
                string_pairs(old(state).config_files@),
                ds.take(i as int),
            ),
            managed_view(*state) == managed_view(*old(state)),
            state.version == old(state).version,
            state.scoop_buckets == old(state).scoop_buckets,
        decreases dests.len() - i,
    {
        assert(ds.take(i + 1).drop_last() == ds.take(i as int));
        assert(ds.take(i + 1).last() == dests@[i as int]@);
        proof {
            lemma_map_vals(state.config_files@, |s: String| s@, dests@[i as int]@, arbitrary());
        }
        state.config_files.remove(dests[i].as_str());
        i = i + 1;
    }
    assert(ds.take(ds.len() as int) == ds);
}

/// The warnings among `found` that the diff did not already report, in order.
pub open spec fn unreported(found: Seq<Seq<char>>, reported: Seq<Seq<char>>) -> Seq<Seq<char>>
    decreases found.len(),
{
    if found.len() == 0 {
        seq![]
    } else {
        let prev = unreported(found.drop_last(), reported);
        if reported.contains(found.last()) {
            prev
        } else {
            prev.push(found.last())
        }
    }
}

pub fn unreported_warnings(found: &Vec<String>, reported: &Vec<String>) -> (r: Vec<String>)
    ensures
        strings_view(r@) == unreported(strings_view(found@), strings_view(reported@)),
{
    let ghost fs = strings_view(found@);
    let mut r: Vec<String> = Vec::new();
    let mut i: usize = 0;
    assert(fs.take(0) == Seq::<Seq<char>>::empty());
    assert(strings_view(r@) =~= Seq::<Seq<char>>::empty());
    while i < found.len()
        invariant
            i <= found@.len(),
            fs == strings_view(found@),
            strings_view(r@) == unreported(fs.take(i as int), strings_view(reported@)),
        decreases found.len() - i,
    {
        assert(fs.take(i + 1).drop_last() == fs.take(i as int));
        assert(fs.take(i + 1).last() == found@[i as int]@);
        let ghost r0 = r@;
        if !strings_contain(reported, &found[i]) {
            r.push(found[i].clone());
            assert(strings_view(r@) =~= strings_view(r0).push(found@[i as int]@));
        }
        i = i + 1;
    }
    assert(fs.take(fs.len() as int) == fs);
    r
}

/// The verb an operation is announced with.
pub open spec fn verb(op: Operation) -> Seq<char> {
    match op {
        Operation::Install => "Installing"@,
        Operation::Upgrade => "Upgrading"@,
        Operation::Remove => "Removing"@,
    }
}

/// The verb an operation's failure is reported with.
pub open spec fn verb_lower(op: Operation) -> Seq<char> {
    match op {
        Operation::Install => "installing"@,
        Operation::Upgrade => "upgrading"@,
        Operation::Remove => "removing"@,
    }
}

/// The line announcing an operation: `Installing winget:Git.Git...`.
pub fn operation_message(op: Operation, pkg: &PackageSpec) -> (m: String)
    ensures
        m@ == verb(op) + " "@ + pkg@.source + ":"@ + pkg@.id + "..."@,
{
    let mut m = match op {
        Operation::Install => "Installing".to_owned(),
        Operation::Upgrade => "Upgrading".to_owned(),
        Operation::Remove => "Removing".to_owned(),
    };
    m.append(" ");
    m.append(pkg.source.as_str());
    m.append(":");
    m.append(pkg.id.as_str());
    m.append("...");
    m
}

/// The line reporting a failed operation: `Failed to installing winget:Git.Git`.
pub fn failure_message(op: Operation, pkg: &PackageSpec) -> (m: String)
    ensures
        m@ == "Failed to "@ + verb_lower(op) + " "@ + pkg@.source + ":"@ + pkg@.id,
{
    let mut m = "Failed to ".to_owned();
    match op {
        Operation::Install => m.append("installing"),
        Operation::Upgrade => m.append("upgrading"),
        Operation::Remove => m.append("removing"),
    }
    m.append(" ");
    m.append(pkg.source.as_str());
    m.append(":");
    m.append(pkg.id.as_str());
    m
}

/// The line reporting a command that could not be built.
pub fn build_failure_message(e: &BuildError) -> (m: String)
    ensures
        m@ == "Failed to build command: "@ + match e@ {
            BuildErrorView::EmptyId => "Package ID cannot be empty"@,
            BuildErrorView::InvalidCharacters(id) => "Package ID contains invalid characters: "@ + id,
        },
{
    let mut m = "Failed to build command: ".to_owned();
    let inner = e.message();
    m.append(inner.as_str());
    m
}

/// The line announcing an adoption: `Adopting winget:Git.Git...`.
pub fn adopt_message(pkg: &PackageSpec) -> (m: String)
    ensures
        m@ == "Adopting "@ + pkg@.source + ":"@ + pkg@.id + "..."@,
{
    let mut m = "Adopting ".to_owned();
    m.append(pkg.source.as_str());
    m.append(":");
    m.append(pkg.id.as_str());
    m.append("...");
    m
}

/// The lines for a bucket change: announced, then failed.
pub fn bucket_messages(bucket: &ScoopBucket, adding: bool) -> (r: (String, String))
    ensures
        r.0@ == (if adding { "Adding scoop bucket: "@ } else { "Removing scoop bucket: "@ })
            + bucket@.name + "..."@,
        r.1@ == (if adding { "Failed to add scoop bucket: "@ } else { "Failed to remove scoop bucket: "@ })
            + bucket@.name,
{
    let mut a = if adding {
        "Adding scoop bucket: ".to_owned()
    } else {
        "Removing scoop bucket: ".to_owned()
    };
    a.append(bucket.name.as_str());
    a.append("...");
    let mut f = if adding {
        "Failed to add scoop bucket: ".to_owned()
    } else {
        "Failed to remove scoop bucket: ".to_owned()
    };
    f.append(bucket.name.as_str());
    (a, f)
}

} // verus!
