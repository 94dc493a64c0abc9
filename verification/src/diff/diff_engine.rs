//! How the declared packages compare with what is installed and managed.
use vstd::prelude::*;

use crate::models::{
    diff_result::{empty_diff, strings_view, DiffResult, DiffResultView},
    installed_packages::UpgradeInfo,
    package_entry::{entries_view, PackageEntry, PackageEntryView},
    package_manager::{manager_name, PackageManager},
    package_spec::{specs_view, PackageSpec, PackageSpecView},
};
use crate::hash::{hex_lower, sha256, sha256_hex};
use crate::models::config_file::ConfigFileEntryView;
use crate::models::diff_result::config_files_view;
use crate::models::installed_packages::InstalledPackages;
use crate::models::manager_validation::ValidationResult;
use crate::models::ntix_config::NTIXConfig;
use crate::models::options::NTIXOptions;
use crate::models::state::State;
use crate::str_map::{lookup, StrMap};
use crate::models::options::{buckets_view, ScoopBucket, ScoopBucketView};
use crate::text::{
    chars_of, copy_opt_string, eq_ignore_ascii_case, leading_word, line_bounds, lines_of, lowercase,
    opt_view, range_eq_ignore_ascii_case, string_eq_ignore_ascii_case, string_of, to_lowercase, trim,
    trim_bounds, word_end,
};

verus! {

/// The first position at or after `i` whose key equals `k` up to ASCII
/// case, or -1.
pub open spec fn ci_index_from<V>(p: Seq<(Seq<char>, V)>, k: Seq<char>, i: int) -> int
    decreases p.len() - i,
{
    if i < 0 || i >= p.len() {
        -1
    } else if eq_ignore_ascii_case(p[i].0, k) {
        i
    } else {
        ci_index_from(p, k, i + 1)
    }
}

/// The first position whose key equals `k` up to ASCII case, or -1.
pub open spec fn ci_index<V>(p: Seq<(Seq<char>, V)>, k: Seq<char>) -> int {
    ci_index_from(p, k, 0)
}

/// The value under the first key equal to `k` up to ASCII case.
pub open spec fn ci_get<V>(p: Seq<(Seq<char>, V)>, k: Seq<char>) -> Option<V> {
    if ci_index(p, k) >= 0 {
        Some(p[ci_index(p, k)].1)
    } else {
        None
    }
}

pub proof fn lemma_ci_index_from<V>(p: Seq<(Seq<char>, V)>, k: Seq<char>, i: int)
    requires
        0 <= i,
    ensures
        -1 <= ci_index_from(p, k, i) < p.len(),
        ci_index_from(p, k, i) >= 0 ==> i <= ci_index_from(p, k, i) && eq_ignore_ascii_case(
            p[ci_index_from(p, k, i)].0,
            k,
        ),
        ci_index_from(p, k, i) == -1 ==> forall|j: int|
            i <= j < p.len() ==> !eq_ignore_ascii_case(#[trigger] p[j].0, k),
    decreases p.len() - i,
{
    if i < p.len() {
        lemma_ci_index_from(p, k, i + 1);
    }
}

/// Looks a key up ignoring ASCII case; the first matching entry wins.
pub fn ci_lookup<'a, V>(map: &'a StrMap<V>, key: &String) -> (r: Option<&'a V>)
    ensures
        match r {
            Some(v) => ci_get(map@, key@) == Some(*v),
            None => ci_get(map@, key@) is None,
        },
{
    let n = map.len();
    let mut i: usize = 0;
    while i < n
        invariant
            n == map@.len(),
            i <= n,
            ci_index(map@, key@) == ci_index_from(map@, key@, i as int),
        decreases n - i,
    {
        let k = map.key_at(i);
        if string_eq_ignore_ascii_case(k, key) {
            return Some(map.value_at(i));
        }
        i = i + 1;
    }
    None
}

/// The list a declared package goes to.
#[derive(Debug, Clone, Copy, PartialEq, Eq, Structural)]
pub enum Placement {
    Install,
    Upgrade,
    Skip,
    Adopt,
    Untracked,
}

/// Where one declared package goes, and the spec it is listed with.
///
/// A pinned package is installed unless the managed version matches and it
/// is installed (skipped), or, untracked, it is installed at the pinned
/// version and adoption is on (adopted at that version). An unpinned
/// package with an upgrade on offer is upgraded to the available version;
/// otherwise it is installed when neither installed nor managed, skipped
/// when both, adopted when only installed and adoption is on, reported as
/// untracked when only installed, and installed when only managed.
pub open spec fn placement(
    e: PackageEntryView,
    source: Seq<char>,
    installed: Seq<(Seq<char>, String)>,
    state: Seq<(Seq<char>, String)>,
    upgradable: Seq<(Seq<char>, UpgradeInfo)>,
    adopt: bool,
) -> (Placement, PackageSpecView) {
    let is_installed = ci_index(installed, e.id) >= 0;
    let in_state = ci_index(state, e.id) >= 0;
    let base = PackageSpecView { id: e.id, version: e.version, source };
    match e.version {
        Some(v) => {
            if in_state {
                if !eq_ignore_ascii_case(ci_get(state, e.id).unwrap()@, v) {
                    (Placement::Install, base)
                } else if is_installed {
                    (Placement::Skip, base)
                } else {
                    (Placement::Install, base)
                }
            } else if is_installed && adopt {
                let iv = ci_get(installed, e.id).unwrap()@;
                if eq_ignore_ascii_case(iv, v) {
                    (Placement::Adopt, PackageSpecView { version: Some(iv), ..base })
                } else {
                    (Placement::Install, base)
                }
            } else {
                (Placement::Install, base)
            }
        },
        None => {
            if is_installed && ci_index(upgradable, e.id) >= 0 {
                (
                    Placement::Upgrade,
                    PackageSpecView {
                        version: Some(ci_get(upgradable, e.id).unwrap().available_version@),
                        ..base
                    },
                )
            } else if !is_installed && !in_state {
                (Placement::Install, base)
            } else if is_installed && in_state {
                (Placement::Skip, base)
            } else if is_installed && adopt {
                (Placement::Adopt, base)
            } else if is_installed {
                (Placement::Untracked, base)
            } else {
                (Placement::Install, base)
            }
        },
    }
}

/// The diff with one more package in the list its placement names.
pub open spec fn add_placed(d: DiffResultView, p: Placement, s: PackageSpecView) -> DiffResultView {
    match p {
        Placement::Install => DiffResultView { to_install: d.to_install.push(s), ..d },
        Placement::Upgrade => DiffResultView { to_upgrade: d.to_upgrade.push(s), ..d },
        Placement::Skip => DiffResultView { to_skip: d.to_skip.push(s), ..d },
        Placement::Adopt => DiffResultView { to_adopt: d.to_adopt.push(s), ..d },
        Placement::Untracked => DiffResultView { to_untracked: d.to_untracked.push(s), ..d },
    }
}

/// The diff after placing each of `pkgs`, in order.
pub open spec fn classified(
    d: DiffResultView,
    pkgs: Seq<PackageEntryView>,
    source: Seq<char>,
    installed: Seq<(Seq<char>, String)>,
    state: Seq<(Seq<char>, String)>,
    upgradable: Seq<(Seq<char>, UpgradeInfo)>,
    adopt: bool,
) -> DiffResultView
    decreases pkgs.len(),
{
    if pkgs.len() == 0 {
        d
    } else {
        let prev = classified(d, pkgs.drop_last(), source, installed, state, upgradable, adopt);
        let (p, s) = placement(pkgs.last(), source, installed, state, upgradable, adopt);
        add_placed(prev, p, s)
    }
}

/// The specs of the packages of `pkgs` that go to list `which`, in order.
pub open spec fn placed(
    pkgs: Seq<PackageEntryView>,
    source: Seq<char>,
    installed: Seq<(Seq<char>, String)>,
    state: Seq<(Seq<char>, String)>,
    upgradable: Seq<(Seq<char>, UpgradeInfo)>,
    adopt: bool,
    which: Placement,
) -> Seq<PackageSpecView>
    decreases pkgs.len(),
{
    if pkgs.len() == 0 {
        seq![]
    } else {
        let prev = placed(pkgs.drop_last(), source, installed, state, upgradable, adopt, which);
        let (p, s) = placement(pkgs.last(), source, installed, state, upgradable, adopt);
        if p == which {
            prev.push(s)
        } else {
            prev
        }
    }
}

/// Classifying extends each package list by the packages placed in it, in
/// declaration order, and leaves everything else as it was.
pub proof fn lemma_classified_lists(
    d: DiffResultView,
    pkgs: Seq<PackageEntryView>,
    source: Seq<char>,
    installed: Seq<(Seq<char>, String)>,
    state: Seq<(Seq<char>, String)>,
    upgradable: Seq<(Seq<char>, UpgradeInfo)>,
    adopt: bool,
)
    ensures
        ({
            let c = classified(d, pkgs, source, installed, state, upgradable, adopt);
            &&& c.to_install == d.to_install + placed(
                pkgs,
                source,
                installed,
                state,
                upgradable,
                adopt,
                Placement::Install,
            )
            &&& c.to_upgrade == d.to_upgrade + placed(
                pkgs,
                source,
                installed,
                state,
                upgradable,
                adopt,
                Placement::Upgrade,
            )
            &&& c.to_skip == d.to_skip + placed(
                pkgs,
                source,
                installed,
                state,
                upgradable,
                adopt,
                Placement::Skip,
            )
            &&& c.to_adopt == d.to_adopt + placed(
                pkgs,
                source,
                installed,
                state,
                upgradable,
                adopt,
                Placement::Adopt,
            )
            &&& c.to_untracked == d.to_untracked + placed(
                pkgs,
                source,
                installed,
                state,
                upgradable,
                adopt,
                Placement::Untracked,
            )
            &&& c.to_remove == d.to_remove
            &&& c.buckets_to_add == d.buckets_to_add
            &&& c.buckets_to_remove == d.buckets_to_remove
            &&& c.warnings == d.warnings
            &&& c.config_files_to_create == d.config_files_to_create
            &&& c.config_files_to_update == d.config_files_to_update
            &&& c.config_files_no_longer_managed == d.config_files_no_longer_managed
        }),
    decreases pkgs.len(),
{
    if pkgs.len() > 0 {
        lemma_classified_lists(d, pkgs.drop_last(), source, installed, state, upgradable, adopt);
        let prev = classified(d, pkgs.drop_last(), source, installed, state, upgradable, adopt);
        assert(d.to_install + placed(pkgs.drop_last(), source, installed, state, upgradable, adopt, Placement::Install).push(
            placement(pkgs.last(), source, installed, state, upgradable, adopt).1,
        ) == (d.to_install + placed(pkgs.drop_last(), source, installed, state, upgradable, adopt, Placement::Install)).push(
            placement(pkgs.last(), source, installed, state, upgradable, adopt).1,
        ));
        assert(d.to_upgrade + placed(pkgs.drop_last(), source, installed, state, upgradable, adopt, Placement::Upgrade).push(
            placement(pkgs.last(), source, installed, state, upgradable, adopt).1,
        ) == (d.to_upgrade + placed(pkgs.drop_last(), source, installed, state, upgradable, adopt, Placement::Upgrade)).push(
            placement(pkgs.last(), source, installed, state, upgradable, adopt).1,
        ));
        assert(d.to_skip + placed(pkgs.drop_last(), source, installed, state, upgradable, adopt, Placement::Skip).push(
            placement(pkgs.last(), source, installed, state, upgradable, adopt).1,
        ) == (d.to_skip + placed(pkgs.drop_last(), source, installed, state, upgradable, adopt, Placement::Skip)).push(
            placement(pkgs.last(), source, installed, state, upgradable, adopt).1,
        ));
        assert(d.to_adopt + placed(pkgs.drop_last(), source, installed, state, upgradable, adopt, Placement::Adopt).push(
            placement(pkgs.last(), source, installed, state, upgradable, adopt).1,
        ) == (d.to_adopt + placed(pkgs.drop_last(), source, installed, state, upgradable, adopt, Placement::Adopt)).push(
            placement(pkgs.last(), source, installed, state, upgradable, adopt).1,
        ));
        assert(d.to_untracked + placed(pkgs.drop_last(), source, installed, state, upgradable, adopt, Placement::Untracked).push(
            placement(pkgs.last(), source, installed, state, upgradable, adopt).1,
        ) == (d.to_untracked + placed(pkgs.drop_last(), source, installed, state, upgradable, adopt, Placement::Untracked)).push(
            placement(pkgs.last(), source, installed, state, upgradable, adopt).1,
        ));
    } else {
        assert(d.to_install + Seq::<PackageSpecView>::empty() == d.to_install);
        assert(d.to_upgrade + Seq::<PackageSpecView>::empty() == d.to_upgrade);
        assert(d.to_skip + Seq::<PackageSpecView>::empty() == d.to_skip);
        assert(d.to_adopt + Seq::<PackageSpecView>::empty() == d.to_adopt);
        assert(d.to_untracked + Seq::<PackageSpecView>::empty() == d.to_untracked);
    }
}

/// Without adoption nothing is adopted; with no upgrade on offer nothing is
/// upgraded; and a package pinned to a version is never upgraded.
pub proof fn lemma_placement_flags(
    pkgs: Seq<PackageEntryView>,
    source: Seq<char>,
    installed: Seq<(Seq<char>, String)>,
    state: Seq<(Seq<char>, String)>,
    upgradable: Seq<(Seq<char>, UpgradeInfo)>,
    adopt: bool,
)
    ensures
        !adopt ==> placed(pkgs, source, installed, state, upgradable, adopt, Placement::Adopt).len() == 0,
        upgradable.len() == 0 ==> placed(pkgs, source, installed, state, upgradable, adopt, Placement::Upgrade).len()
            == 0,
        forall|i: int|
            0 <= i < pkgs.len() && (#[trigger] pkgs[i]).version is Some ==> placement(
                pkgs[i],
                source,
                installed,
                state,
                upgradable,
                adopt,
            ).0 != Placement::Upgrade,
    decreases pkgs.len(),
{
    if pkgs.len() > 0 {
        lemma_placement_flags(pkgs.drop_last(), source, installed, state, upgradable, adopt);
        lemma_ci_index_from(upgradable, pkgs.last().id, 0);
        assert forall|i: int|
            0 <= i < pkgs.len() && (#[trigger] pkgs[i]).version is Some implies placement(
                pkgs[i],
                source,
                installed,
                state,
                upgradable,
                adopt,
            ).0 != Placement::Upgrade by {
            if i < pkgs.len() - 1 {
                assert(pkgs[i] == pkgs.drop_last()[i]);
            }
        }
    }
}

/// Every declared package lands in exactly one list: the five lists
/// together hold as many packages as were declared.
pub proof fn lemma_placement_partitions(
    pkgs: Seq<PackageEntryView>,
    source: Seq<char>,
    installed: Seq<(Seq<char>, String)>,
    state: Seq<(Seq<char>, String)>,
    upgradable: Seq<(Seq<char>, UpgradeInfo)>,
    adopt: bool,
)
    ensures
        placed(pkgs, source, installed, state, upgradable, adopt, Placement::Install).len()
            + placed(pkgs, source, installed, state, upgradable, adopt, Placement::Upgrade).len()
            + placed(pkgs, source, installed, state, upgradable, adopt, Placement::Skip).len()
            + placed(pkgs, source, installed, state, upgradable, adopt, Placement::Adopt).len()
            + placed(pkgs, source, installed, state, upgradable, adopt, Placement::Untracked).len()
            == pkgs.len(),
    decreases pkgs.len(),
{
    if pkgs.len() > 0 {
        lemma_placement_partitions(pkgs.drop_last(), source, installed, state, upgradable, adopt);
    }
}

/// Whether some entry's key equals `k` ignoring ASCII case.
pub open spec fn has_key_ci<V>(p: Seq<(Seq<char>, V)>, k: Seq<char>) -> bool {
    exists|j: int| 0 <= j < p.len() && eq_ignore_ascii_case(#[trigger] p[j].0, k)
}

/// What each placement means for a declared package: one that is not
/// installed is always installed (also when ntix manages it); a skipped one
/// is installed and managed; an adopted one is installed, unmanaged, and
/// adoption is on; an untracked one is installed, unmanaged, and adoption is
/// off; an upgraded one is unpinned, installed and has an upgrade on offer.
/// An unpinned package that is installed and managed, with no upgrade on
/// offer, is skipped. A pinned package whose managed version differs is
/// installed; one is skipped only at its managed version and adopted only at
/// its installed version, which the spec then carries. An upgrade carries
/// the available version; otherwise the spec keeps the declared version.
/// The spec keeps the package's id and names the source.
pub proof fn lemma_placement_meaning(
    e: PackageEntryView,
    source: Seq<char>,
    installed: Seq<(Seq<char>, String)>,
    state: Seq<(Seq<char>, String)>,
    upgradable: Seq<(Seq<char>, UpgradeInfo)>,
    adopt: bool,
)
    ensures
        ({
            let r = placement(e, source, installed, state, upgradable, adopt);
            let inst = has_key_ci(installed, e.id);
            let managed = has_key_ci(state, e.id);
            &&& !inst ==> r.0 == Placement::Install
            &&& r.0 == Placement::Skip ==> inst && managed
            &&& r.0 == Placement::Adopt ==> inst && !managed && adopt
            &&& r.0 == Placement::Untracked ==> inst && !managed && !adopt
            &&& r.0 == Placement::Upgrade ==> e.version is None && inst && has_key_ci(upgradable, e.id)
            &&& (e.version is None && inst && managed && !has_key_ci(upgradable, e.id)) ==> r.0 == Placement::Skip
            &&& r.1.id == e.id && r.1.source == source
            &&& (e.version is Some && managed && !eq_ignore_ascii_case(
                ci_get(state, e.id).unwrap()@,
                e.version.unwrap(),
            )) ==> r.0 == Placement::Install
            &&& (e.version is Some && r.0 == Placement::Skip) ==> eq_ignore_ascii_case(
                ci_get(state, e.id).unwrap()@,
                e.version.unwrap(),
            )
            &&& (e.version is Some && r.0 == Placement::Adopt) ==> eq_ignore_ascii_case(
                ci_get(installed, e.id).unwrap()@,
                e.version.unwrap(),
            ) && r.1.version == Some(ci_get(installed, e.id).unwrap()@)
            &&& r.0 == Placement::Upgrade ==> r.1.version == Some(
                ci_get(upgradable, e.id).unwrap().available_version@,
            )
            &&& (r.0 != Placement::Upgrade && r.0 != Placement::Adopt) ==> r.1.version == e.version
        }),
{
    lemma_ci_index_from(installed, e.id, 0);
    lemma_ci_index_from(state, e.id, 0);
    lemma_ci_index_from(upgradable, e.id, 0);
    assert(has_key_ci(installed, e.id) == (ci_index(installed, e.id) >= 0));
    assert(has_key_ci(state, e.id) == (ci_index(state, e.id) >= 0));
    assert(has_key_ci(upgradable, e.id) == (ci_index(upgradable, e.id) >= 0));
}

/// Where one package goes, with its spec.
fn classify_entry(
    pkg: &PackageEntry,
    source: PackageManager,
    installed: &StrMap<String>,
    state: &StrMap<String>,
    upgradable: &StrMap<UpgradeInfo>,
    adopt: bool,
) -> (r: (Placement, PackageSpec))
    ensures
        (r.0, r.1@) == placement(pkg@, manager_name(source), installed@, state@, upgradable@, adopt),
{
    let is_installed = ci_lookup(installed, &pkg.id);
    let in_state = ci_lookup(state, &pkg.id);
    let spec = PackageSpec {
        id: pkg.id.clone(),
        version: copy_opt_string(&pkg.version),
        source: source.as_str().to_owned(),
    };
    match &pkg.version {
        Some(v) => {
            match in_state {
                Some(state_version) => {
                    if !string_eq_ignore_ascii_case(state_version, v) {
                        (Placement::Install, spec)
                    } else if is_installed.is_some() {
                        (Placement::Skip, spec)
                    } else {
                        (Placement::Install, spec)
                    }
                },
                None => {
                    match is_installed {
                        Some(installed_version) => {
                            if adopt && string_eq_ignore_ascii_case(installed_version, v) {
                                let adopted = PackageSpec {
                                    version: Some(installed_version.clone()),
                                    ..spec
                                };
                                (Placement::Adopt, adopted)
                            } else {
                                (Placement::Install, spec)
                            }
                        },
                        None => (Placement::Install, spec),
                    }
                },
            }
        },
        None => {
            let upgrade = ci_lookup(upgradable, &pkg.id);
            if is_installed.is_some() && upgrade.is_some() {
                let info = upgrade.unwrap();
                let upgraded = PackageSpec {
                    version: Some(info.available_version.clone()),
                    ..spec
                };
                (Placement::Upgrade, upgraded)
            } else if is_installed.is_none() && in_state.is_none() {
                (Placement::Install, spec)
            } else if is_installed.is_some() && in_state.is_some() {
                (Placement::Skip, spec)
            } else if is_installed.is_some() && adopt {
                (Placement::Adopt, spec)
            } else if is_installed.is_some() {
                (Placement::Untracked, spec)
            } else {
                (Placement::Install, spec)
            }
        },
    }
}

/// Adds a spec to the list a placement names.
fn push_placed(result: &mut DiffResult, p: Placement, s: PackageSpec)
    ensures
        final(result)@ == add_placed(old(result)@, p, s@),
{
    let ghost sv = s@;
    match p {
        Placement::Install => {
            result.to_install.push(s);
            assert(specs_view(result.to_install@) =~= specs_view(old(result).to_install@).push(sv));
        },
        Placement::Upgrade => {
            result.to_upgrade.push(s);
            assert(specs_view(result.to_upgrade@) =~= specs_view(old(result).to_upgrade@).push(sv));
        },
        Placement::Skip => {
            result.to_skip.push(s);
            assert(specs_view(result.to_skip@) =~= specs_view(old(result).to_skip@).push(sv));
        },
        Placement::Adopt => {
            result.to_adopt.push(s);
            assert(specs_view(result.to_adopt@) =~= specs_view(old(result).to_adopt@).push(sv));
        },
        Placement::Untracked => {
            result.to_untracked.push(s);
            assert(specs_view(result.to_untracked@) =~= specs_view(old(result).to_untracked@).push(
                sv,
            ));
        },
    }
}

/// Places each declared package of one manager, when the manager is enabled.
pub fn classify_packages(
    result: &mut DiffResult,
    packages: &Vec<PackageEntry>,
    source: PackageManager,
    enabled: bool,
    installed: &StrMap<String>,
    state: &StrMap<String>,
    upgradable: &StrMap<UpgradeInfo>,
    adopt: bool,
)
    ensures
        final(result)@ == if enabled {
            classified(
                old(result)@,
                entries_view(packages@),
                manager_name(source),
                installed@,
                state@,
                upgradable@,
                adopt,
            )
        } else {
            old(result)@
        },
{
    if !enabled {
        return;
    }
    let ghost pkgs = entries_view(packages@);
    let mut i: usize = 0;
    assert(pkgs.take(0) == Seq::<PackageEntryView>::empty());
    while i < packages.len()
        invariant
            i <= packages@.len(),
            pkgs == entries_view(packages@),
            result@ == classified(
                old(result)@,
                pkgs.take(i as int),
                manager_name(source),
                installed@,
                state@,
                upgradable@,
                adopt,
            ),
        decreases packages.len() - i,
    {
        let (p, s) = classify_entry(&packages[i], source, installed, state, upgradable, adopt);
        push_placed(result, p, s);
        assert(pkgs.take(i + 1).drop_last() == pkgs.take(i as int));
        assert(pkgs.take(i + 1).last() == packages@[i as int]@);
        i = i + 1;
    }
    assert(pkgs.take(packages@.len() as int) == pkgs);
}

/// Some declared package has the id `id`, up to ASCII case.
pub open spec fn declared(cfg: Seq<PackageEntryView>, id: Seq<char>) -> bool {
    exists|i: int| 0 <= i < cfg.len() && eq_ignore_ascii_case(#[trigger] cfg[i].id, id)
}

/// The spec a managed package is removed with.
pub open spec fn orphan_spec(entry: (Seq<char>, String), source: Seq<char>) -> PackageSpecView {
    PackageSpecView { id: entry.0, version: Some(entry.1@), source }
}

/// The managed packages that no declared package names, in tracking order.
pub open spec fn orphans(
    managed: Seq<(Seq<char>, String)>,
    cfg: Seq<PackageEntryView>,
    source: Seq<char>,
) -> Seq<PackageSpecView>
    decreases managed.len(),
{
    if managed.len() == 0 {
        seq![]
    } else {
        let prev = orphans(managed.drop_last(), cfg, source);
        if declared(cfg, managed.last().0) {
            prev
        } else {
            prev.push(orphan_spec(managed.last(), source))
        }
    }
}

/// A managed package is listed for removal exactly when the config no
/// longer declares it.
pub proof fn lemma_orphans_exact(
    managed: Seq<(Seq<char>, String)>,
    cfg: Seq<PackageEntryView>,
    source: Seq<char>,
)
    ensures
        forall|i: int|
            0 <= i < managed.len() && !declared(cfg, #[trigger] managed[i].0) ==> orphans(
                managed,
                cfg,
                source,
            ).contains(orphan_spec(managed[i], source)),
        forall|j: int|
            0 <= j < orphans(managed, cfg, source).len() ==> exists|i: int|
                0 <= i < managed.len() && !declared(cfg, managed[i].0) && #[trigger] orphans(
                    managed,
                    cfg,
                    source,
                )[j] == orphan_spec(managed[i], source),
    decreases managed.len(),
{
    if managed.len() > 0 {
        let prev_t = managed.drop_last();
        lemma_orphans_exact(prev_t, cfg, source);
        let prev = orphans(prev_t, cfg, source);
        let cur = orphans(managed, cfg, source);
        assert forall|i: int|
            0 <= i < managed.len() && !declared(cfg, #[trigger] managed[i].0) implies cur.contains(
            orphan_spec(managed[i], source),
        ) by {
            if i < managed.len() - 1 {
                assert(prev_t[i] == managed[i]);
                let k = choose|k: int| 0 <= k < prev.len() && prev[k] == orphan_spec(prev_t[i], source);
                assert(cur[k] == prev[k]);
            } else {
                assert(cur[cur.len() - 1] == orphan_spec(managed[i], source));
            }
        }
        assert forall|j: int| 0 <= j < cur.len() implies exists|i: int|
            0 <= i < managed.len() && !declared(cfg, managed[i].0) && #[trigger] cur[j]
                == orphan_spec(managed[i], source) by {
            if j < prev.len() {
                assert(cur[j] == prev[j]);
                let i = choose|i: int|
                    0 <= i < prev_t.len() && !declared(cfg, prev_t[i].0) && #[trigger] prev[j]
                        == orphan_spec(prev_t[i], source);
                assert(managed[i] == prev_t[i]);
            } else {
                assert(cur[j] == orphan_spec(managed[managed.len() - 1], source));
            }
        }
    }
}

/// Whether some declared package has the id, up to ASCII case.
fn is_declared(cfg: &Vec<PackageEntry>, id: &String) -> (b: bool)
    ensures
        b == declared(entries_view(cfg@), id@),
{
    let mut i: usize = 0;
    while i < cfg.len()
        invariant
            i <= cfg@.len(),
            forall|j: int|
                0 <= j < i ==> !eq_ignore_ascii_case(#[trigger] entries_view(cfg@)[j].id, id@),
        decreases cfg.len() - i,
    {
        if string_eq_ignore_ascii_case(&cfg[i].id, id) {
            assert(entries_view(cfg@)[i as int].id == cfg@[i as int].id@);
            return true;
        }
        i = i + 1;
    }
    false
}

/// Lists for removal every managed package of one manager that the config no
/// longer declares.
pub fn find_orphans(
    result: &mut DiffResult,
    managed: &StrMap<String>,
    config_packages: &Vec<PackageEntry>,
    source: PackageManager,
)
    ensures
        final(result)@ == (DiffResultView {
            to_remove: old(result)@.to_remove + orphans(
                managed@,
                entries_view(config_packages@),
                manager_name(source),
            ),
            ..old(result)@
        }),
{
    let ghost cfg = entries_view(config_packages@);
    let ghost src = manager_name(source);
    let n = managed.len();
    let mut i: usize = 0;
    assert(managed@.take(0) == Seq::<(Seq<char>, String)>::empty());
    assert(old(result)@.to_remove + Seq::<PackageSpecView>::empty() == old(result)@.to_remove);
    while i < n
        invariant
            n == managed@.len(),
            i <= n,
            cfg == entries_view(config_packages@),
            src == manager_name(source),
            result@ == (DiffResultView {
                to_remove: old(result)@.to_remove + orphans(managed@.take(i as int), cfg, src),
                ..old(result)@
            }),
        decreases n - i,
    {
        let id = managed.key_at(i);
        let ghost before = result.to_remove@;
        assert(managed@.take(i + 1).drop_last() == managed@.take(i as int));
        assert(managed@.take(i + 1).last() == managed@[i as int]);
        if !is_declared(config_packages, id) {
            let ver = managed.value_at(i);
            let spec = PackageSpec {
                id: id.clone(),
                version: Some(ver.clone()),
                source: source.as_str().to_owned(),
            };
            result.to_remove.push(spec);
            assert(specs_view(result.to_remove@) =~= specs_view(before).push(
                orphan_spec(managed@[i as int], src),
            ));
        }
        i = i + 1;
    }
    assert(managed@.take(n as int) == managed@);
}

/// The ids of the specs that no managed key names, up to ASCII case.
pub open spec fn untracked_ids(ps: Seq<PackageSpecView>, managed: Seq<(Seq<char>, String)>) -> Seq<
    Seq<char>,
>
    decreases ps.len(),
{
    if ps.len() == 0 {
        seq![]
    } else {
        let prev = untracked_ids(ps.drop_last(), managed);
        if ci_index(managed, ps.last().id) == -1 {
            prev.push(ps.last().id)
        } else {
            prev
        }
    }
}

/// The ids of the packages that are not managed yet.
pub fn new_pkg_ids(pkgs: &Vec<PackageSpec>, managed: &StrMap<String>) -> (r: Vec<String>)
    ensures
        strings_view(r@) == untracked_ids(specs_view(pkgs@), managed@),
{
    let ghost ps = specs_view(pkgs@);
    let mut r: Vec<String> = Vec::new();
    let mut i: usize = 0;
    while i < pkgs.len()
        invariant
            i <= pkgs@.len(),
            ps == specs_view(pkgs@),
            strings_view(r@) == untracked_ids(ps.take(i as int), managed@),
        decreases pkgs.len() - i,
    {
        assert(ps.take(i + 1).drop_last() == ps.take(i as int));
        assert(ps.take(i + 1).last() == pkgs@[i as int]@);
        let ghost before = r@;
        proof {
            lemma_ci_index_from(managed@, pkgs@[i as int].id@, 0);
        }
        if ci_lookup(managed, &pkgs[i].id).is_none() {
            r.push(pkgs[i].id.clone());
            assert(strings_view(r@) =~= strings_view(before).push(pkgs@[i as int].id@));
        }
        i = i + 1;
    }
    assert(ps.take(pkgs@.len() as int) == ps);
    r
}

/// The specs that belong to one manager, in order.
pub open spec fn with_source(ps: Seq<PackageSpecView>, source: Seq<char>) -> Seq<PackageSpecView>
    decreases ps.len(),
{
    if ps.len() == 0 {
        seq![]
    } else {
        let prev = with_source(ps.drop_last(), source);
        if ps.last().source == source {
            prev.push(ps.last())
        } else {
            prev
        }
    }
}

/// The packages to install that belong to one manager.
pub fn extract_pkgs_to_install(result: &DiffResult, source: PackageManager) -> (r: Vec<PackageSpec>)
    ensures
        specs_view(r@) == with_source(result@.to_install, manager_name(source)),
{
    let ghost ps = result@.to_install;
    let src = source.as_str().to_owned();
    let mut r: Vec<PackageSpec> = Vec::new();
    let mut i: usize = 0;
    while i < result.to_install.len()
        invariant
            i <= result.to_install@.len(),
            ps == specs_view(result.to_install@),
            src@ == manager_name(source),
            specs_view(r@) == with_source(ps.take(i as int), src@),
        decreases result.to_install.len() - i,
    {
        assert(ps.take(i + 1).drop_last() == ps.take(i as int));
        assert(ps.take(i + 1).last() == result.to_install@[i as int]@);
        let ghost before = r@;
        if result.to_install[i].source == src {
            r.push(result.to_install[i].copy());
            assert(specs_view(r@) =~= specs_view(before).push(result.to_install@[i as int]@));
        }
        i = i + 1;
    }
    assert(ps.take(ps.len() as int) == ps);
    r
}

/// The warning for a package its manager does not know.
pub open spec fn not_found_message(source: Seq<char>, id: Seq<char>) -> Seq<char> {
    "Package not found in "@ + source + ": "@ + id
}

/// The warning for a package whose existence could not be checked.
pub open spec fn unverified_message(source: Seq<char>, id: Seq<char>) -> Seq<char> {
    "Could not verify package in "@ + source + ": "@ + id
}

/// The warnings for the packages of one manager, given what its lookups
/// answered (missing answers count as unknown).
pub open spec fn availability_warnings(
    ps: Seq<PackageSpecView>,
    answers: Seq<(Seq<char>, Option<bool>)>,
    source: Seq<char>,
) -> Seq<Seq<char>>
    decreases ps.len(),
{
    if ps.len() == 0 {
        seq![]
    } else {
        let prev = availability_warnings(ps.drop_last(), answers, source);
        let id = ps.last().id;
        match lookup(answers, id) {
            Some(Some(true)) => prev,
            Some(Some(false)) => prev.push(not_found_message(source, id)),
            _ => prev.push(unverified_message(source, id)),
        }
    }
}

/// The ids of the packages of one manager that its lookups did not find.
pub open spec fn not_found_ids(ps: Seq<PackageSpecView>, answers: Seq<(Seq<char>, Option<bool>)>) -> Seq<
    Seq<char>,
>
    decreases ps.len(),
{
    if ps.len() == 0 {
        seq![]
    } else {
        let prev = not_found_ids(ps.drop_last(), answers);
        if lookup(answers, ps.last().id) == Some(Some(false)) {
            prev.push(ps.last().id)
        } else {
            prev
        }
    }
}

/// The specs whose id is not among `ids`, in order.
pub open spec fn without_ids(ps: Seq<PackageSpecView>, ids: Seq<Seq<char>>) -> Seq<PackageSpecView>
    decreases ps.len(),
{
    if ps.len() == 0 {
        seq![]
    } else {
        let prev = without_ids(ps.drop_last(), ids);
        if ids.contains(ps.last().id) {
            prev
        } else {
            prev.push(ps.last())
        }
    }
}

/// Records the warnings and the missing ids for the packages of one manager.
fn check_availability(
    warnings: &mut Vec<String>,
    invalid: &mut Vec<String>,
    pkgs: &Vec<PackageSpec>,
    answers: &StrMap<Option<bool>>,
    source: PackageManager,
)
    ensures
        strings_view(final(warnings)@) == strings_view(old(warnings)@) + availability_warnings(
            specs_view(pkgs@),
            answers@,
            manager_name(source),
        ),
        strings_view(final(invalid)@) == strings_view(old(invalid)@) + not_found_ids(
            specs_view(pkgs@),
            answers@,
        ),
{
    let ghost ps = specs_view(pkgs@);
    let ghost src = manager_name(source);
    let mut i: usize = 0;
    assert(ps.take(0) == Seq::<PackageSpecView>::empty());
    assert(strings_view(old(warnings)@) + Seq::<Seq<char>>::empty() == strings_view(old(warnings)@));
    assert(strings_view(old(invalid)@) + Seq::<Seq<char>>::empty() == strings_view(old(invalid)@));
    while i < pkgs.len()
        invariant
            i <= pkgs@.len(),
            ps == specs_view(pkgs@),
            src == manager_name(source),
            strings_view(warnings@) == strings_view(old(warnings)@) + availability_warnings(
                ps.take(i as int),
                answers@,
                src,
            ),
            strings_view(invalid@) == strings_view(old(invalid)@) + not_found_ids(
                ps.take(i as int),
                answers@,
            ),
        decreases pkgs.len() - i,
    {
        assert(ps.take(i + 1).drop_last() == ps.take(i as int));
        assert(ps.take(i + 1).last() == pkgs@[i as int]@);
        let id = &pkgs[i].id;
        let ghost w0 = warnings@;
        let ghost v0 = invalid@;
        match answers.get(id.as_str()) {
            Some(Some(true)) => {},
            Some(Some(false)) => {
                let mut m = "Package not found in ".to_owned();
                m.append(source.as_str());
                m.append(": ");
                m.append(id.as_str());
                warnings.push(m);
                invalid.push(id.clone());
                assert(strings_view(warnings@) =~= strings_view(w0).push(not_found_message(src, id@)));
                assert(strings_view(invalid@) =~= strings_view(v0).push(id@));
            },
            _ => {
                let mut m = "Could not verify package in ".to_owned();
                m.append(source.as_str());
                m.append(": ");
                m.append(id.as_str());
                warnings.push(m);
                assert(strings_view(warnings@) =~= strings_view(w0).push(unverified_message(src, id@)));
            },
        }
        i = i + 1;
    }
    assert(ps.take(pkgs@.len() as int) == ps);
}

/// Whether a list of strings holds one.
pub fn strings_contain(v: &Vec<String>, s: &String) -> (b: bool)
    ensures
        b == strings_view(v@).contains(s@),
{
    let mut i: usize = 0;
    while i < v.len()
        invariant
            i <= v@.len(),
            forall|j: int| 0 <= j < i ==> #[trigger] strings_view(v@)[j] != s@,
        decreases v.len() - i,
    {
        if v[i] == *s {
            assert(strings_view(v@)[i as int] == s@);
            return true;
        }
        i = i + 1;
    }
    false
}

/// The ids to look up, per manager: the packages to install that are not
/// managed yet, for the enabled managers.
pub fn availability_queries(
    result: &DiffResult,
    state: &crate::models::state::State,
    winget_enabled: bool,
    choco_enabled: bool,
    scoop_enabled: bool,
) -> (r: (Vec<String>, Vec<String>, Vec<String>))
    ensures
        strings_view(r.0@) == if winget_enabled {
            untracked_ids(with_source(result@.to_install, manager_name(PackageManager::Winget)), state.winget@)
        } else {
            seq![]
        },
        strings_view(r.1@) == if choco_enabled {
            untracked_ids(
                with_source(result@.to_install, manager_name(PackageManager::Chocolatey)),
                state.chocolatey@,
            )
        } else {
            seq![]
        },
        strings_view(r.2@) == if scoop_enabled {
            untracked_ids(with_source(result@.to_install, manager_name(PackageManager::Scoop)), state.scoop@)
        } else {
            seq![]
        },
{
    let empty: Vec<String> = Vec::new();
    assert(strings_view(empty@) =~= Seq::<Seq<char>>::empty());
    let w = if winget_enabled {
        new_pkg_ids(&extract_pkgs_to_install(result, PackageManager::Winget), &state.winget)
    } else {
        empty.clone()
    };
    let c = if choco_enabled {
        new_pkg_ids(&extract_pkgs_to_install(result, PackageManager::Chocolatey), &state.chocolatey)
    } else {
        empty.clone()
    };
    let s = if scoop_enabled {
        new_pkg_ids(&extract_pkgs_to_install(result, PackageManager::Scoop), &state.scoop)
    } else {
        empty
    };
    (w, c, s)
}

/// Applies what the lookups answered: one warning per package to install
/// that was not found or could not be checked, and the packages not found
/// leave the install list.
pub fn apply_availability(
    result: &mut DiffResult,
    winget_answers: &StrMap<Option<bool>>,
    choco_answers: &StrMap<Option<bool>>,
    scoop_answers: &StrMap<Option<bool>>,
)
    ensures
        ({
            let wp = with_source(old(result)@.to_install, manager_name(PackageManager::Winget));
            let cp = with_source(old(result)@.to_install, manager_name(PackageManager::Chocolatey));
            let sp = with_source(old(result)@.to_install, manager_name(PackageManager::Scoop));
            final(result)@ == DiffResultView {
                warnings: old(result)@.warnings + availability_warnings(
                    wp,
                    winget_answers@,
                    manager_name(PackageManager::Winget),
                ) + availability_warnings(cp, choco_answers@, manager_name(PackageManager::Chocolatey))
                    + availability_warnings(sp, scoop_answers@, manager_name(PackageManager::Scoop)),
                to_install: without_ids(
                    old(result)@.to_install,
                    not_found_ids(wp, winget_answers@) + not_found_ids(cp, choco_answers@)
                        + not_found_ids(sp, scoop_answers@),
                ),
                ..old(result)@
            }
        }),
{
    let wp = extract_pkgs_to_install(result, PackageManager::Winget);
    let cp = extract_pkgs_to_install(result, PackageManager::Chocolatey);
    let sp = extract_pkgs_to_install(result, PackageManager::Scoop);
    let mut invalid: Vec<String> = Vec::new();
    assert(strings_view(invalid@) =~= Seq::<Seq<char>>::empty());
    let ghost w0 = result.warnings@;
    check_availability(&mut result.warnings, &mut invalid, &wp, winget_answers, PackageManager::Winget);
    check_availability(
        &mut result.warnings,
        &mut invalid,
        &cp,
        choco_answers,
        PackageManager::Chocolatey,
    );
    check_availability(&mut result.warnings, &mut invalid, &sp, scoop_answers, PackageManager::Scoop);
    let ghost ps = old(result)@.to_install;
    let mut kept: Vec<PackageSpec> = Vec::new();
    let mut i: usize = 0;
    while i < result.to_install.len()
        invariant
            i <= result.to_install@.len(),
            ps == specs_view(result.to_install@),
            specs_view(kept@) == without_ids(ps.take(i as int), strings_view(invalid@)),
        decreases result.to_install.len() - i,
    {
        assert(ps.take(i + 1).drop_last() == ps.take(i as int));
        assert(ps.take(i + 1).last() == result.to_install@[i as int]@);
        let ghost k0 = kept@;
        if !strings_contain(&invalid, &result.to_install[i].id) {
            kept.push(result.to_install[i].copy());
            assert(specs_view(kept@) =~= specs_view(k0).push(result.to_install@[i as int]@));
        }
        i = i + 1;
    }
    assert(ps.take(ps.len() as int) == ps);
    result.to_install = kept;
    assert(strings_view(result.warnings@) =~= strings_view(w0) + availability_warnings(
        specs_view(wp@),
        winget_answers@,
        manager_name(PackageManager::Winget),
    ) + availability_warnings(specs_view(cp@), choco_answers@, manager_name(PackageManager::Chocolatey))
        + availability_warnings(specs_view(sp@), scoop_answers@, manager_name(PackageManager::Scoop)));
}

/// The bucket a line of `scoop bucket list` names, lower-cased: the first
/// word of the trimmed line, unless the line is blank, a rule of dashes or
/// the `Name` header.
pub open spec fn bucket_line_name(line: Seq<char>) -> Option<Seq<char>> {
    let t = trim(line);
    if t.len() == 0 || t[0] == '-' {
        None
    } else if eq_ignore_ascii_case(leading_word(t), "Name"@) {
        None
    } else {
        Some(lowercase(leading_word(t)))
    }
}

/// The buckets the lines name, lower-cased, in order.
pub open spec fn listed_buckets(lines: Seq<Seq<char>>) -> Seq<Seq<char>>
    decreases lines.len(),
{
    if lines.len() == 0 {
        seq![]
    } else {
        let prev = listed_buckets(lines.drop_last());
        match bucket_line_name(lines.last()) {
            Some(n) => prev.push(n),
            None => prev,
        }
    }
}

/// The configured buckets whose lower-cased name the system does not list.
pub open spec fn buckets_missing(cfg: Seq<ScoopBucketView>, system: Seq<Seq<char>>) -> Seq<
    ScoopBucketView,
>
    decreases cfg.len(),
{
    if cfg.len() == 0 {
        seq![]
    } else {
        let prev = buckets_missing(cfg.drop_last(), system);
        if system.contains(lowercase(cfg.last().name)) {
            prev
        } else {
            prev.push(cfg.last())
        }
    }
}

/// The lower-cased names of the configured buckets.
pub open spec fn lowered_names(cfg: Seq<ScoopBucketView>) -> Seq<Seq<char>>
    decreases cfg.len(),
{
    if cfg.len() == 0 {
        seq![]
    } else {
        lowered_names(cfg.drop_last()).push(lowercase(cfg.last().name))
    }
}

/// The managed buckets that no configured bucket names, lower-cased, each
/// to be removed by name alone.
pub open spec fn buckets_unwanted(
    managed: Seq<(Seq<char>, Option<String>)>,
    configured: Seq<Seq<char>>,
) -> Seq<ScoopBucketView>
    decreases managed.len(),
{
    if managed.len() == 0 {
        seq![]
    } else {
        let prev = buckets_unwanted(managed.drop_last(), configured);
        if configured.contains(lowercase(managed.last().0)) {
            prev
        } else {
            prev.push(ScoopBucketView { name: managed.last().0, url: None })
        }
    }
}

/// The lower-cased names of the buckets `scoop bucket list` printed.
pub fn parse_bucket_list(output: &str) -> (r: Vec<String>)
    ensures
        strings_view(r@) == listed_buckets(lines_of(output@)),
{
    let v = chars_of(output);
    let bounds = line_bounds(&v);
    let ghost lines = lines_of(v@);
    let mut r: Vec<String> = Vec::new();
    let mut i: usize = 0;
    assert(strings_view(r@) =~= Seq::<Seq<char>>::empty());
    assert(lines.take(0) == Seq::<Seq<char>>::empty());
    proof {
        reveal_strlit("Name");
    }
    let name_header = chars_of("Name");
    while i < bounds.len()
        invariant
            v@ == output@,
            lines == lines_of(v@),
            name_header@ == "Name"@,
            forall|k: int| 0 <= k < bounds@.len() ==> #[trigger] bounds@[k].0 <= bounds@[k].1 <= v@.len(),
            bounds@.map_values(|b: (usize, usize)| v@.subrange(b.0 as int, b.1 as int)) == lines,
            i <= bounds@.len(),
            strings_view(r@) == listed_buckets(lines.take(i as int)),
        decreases bounds.len() - i,
    {
        let (lo, hi) = bounds[i];
        assert(lines[i as int] == v@.subrange(lo as int, hi as int));
        assert(lines.take(i + 1).drop_last() == lines.take(i as int));
        assert(lines.take(i + 1).last() == lines[i as int]);
        let (a, b) = trim_bounds(&v, lo, hi);
        let ghost t = v@.subrange(a as int, b as int);
        if a < b && v[a] != '-' {
            assert(t[0] == v@[a as int]);
            let e = word_end(&v, a, b);
            if !range_eq_ignore_ascii_case(&v, a, e, &name_header) {
                let word = string_of(&v, a, e);
                let lower = to_lowercase(word.as_str());
                let ghost r0 = r@;
                r.push(lower);
                assert(strings_view(r@) =~= strings_view(r0).push(lowercase(leading_word(t))));
            }
        } else {
            if a < b {
                assert(t[0] == v@[a as int]);
            }
        }
        i = i + 1;
    }
    assert(lines.take(bounds@.len() as int) == lines);
    r
}

/// The buckets to add (configured but not on the system) and to remove
/// (managed but no longer configured), names compared lower-cased.
pub fn compute_bucket_diff(
    result: &mut DiffResult,
    configured: &Vec<ScoopBucket>,
    managed: &StrMap<Option<String>>,
    bucket_list_output: &str,
)
    ensures
        final(result)@ == (DiffResultView {
            buckets_to_add: old(result)@.buckets_to_add + buckets_missing(
                buckets_view(configured@),
                listed_buckets(lines_of(bucket_list_output@)),
            ),
            buckets_to_remove: old(result)@.buckets_to_remove + buckets_unwanted(
                managed@,
                lowered_names(buckets_view(configured@)),
            ),
            ..old(result)@
        }),
{
    let system = parse_bucket_list(bucket_list_output);
    let ghost cfg = buckets_view(configured@);
    let mut names: Vec<String> = Vec::new();
    let mut i: usize = 0;
    assert(cfg.take(0) == Seq::<ScoopBucketView>::empty());
    assert(old(result)@.buckets_to_add + Seq::<ScoopBucketView>::empty() == old(result)@.buckets_to_add);
    assert(strings_view(names@) =~= Seq::<Seq<char>>::empty());
    while i < configured.len()
        invariant
            i <= configured@.len(),
            cfg == buckets_view(configured@),
            strings_view(system@) == listed_buckets(lines_of(bucket_list_output@)),
            strings_view(names@) == lowered_names(cfg.take(i as int)),
            result@ == (DiffResultView {
                buckets_to_add: old(result)@.buckets_to_add + buckets_missing(
                    cfg.take(i as int),
                    strings_view(system@),
                ),
                ..old(result)@
            }),
        decreases configured.len() - i,
    {
        assert(cfg.take(i + 1).drop_last() == cfg.take(i as int));
        assert(cfg.take(i + 1).last() == configured@[i as int]@);
        let lower = to_lowercase(configured[i].name.as_str());
        let ghost a0 = result.buckets_to_add@;
        if !strings_contain(&system, &lower) {
            result.buckets_to_add.push(configured[i].copy());
            assert(buckets_view(result.buckets_to_add@) =~= buckets_view(a0).push(configured@[i as int]@));
        }
        let ghost n0 = names@;
        names.push(lower);
        assert(strings_view(names@) =~= strings_view(n0).push(lowercase(configured@[i as int].name@)));
        i = i + 1;
    }
    assert(cfg.take(configured@.len() as int) == cfg);
    let n = managed.len();
    let mut j: usize = 0;
    assert(managed@.take(0) == Seq::<(Seq<char>, Option<String>)>::empty());
    assert(old(result)@.buckets_to_remove + Seq::<ScoopBucketView>::empty() == old(result)@.buckets_to_remove);
    while j < n
        invariant
            n == managed@.len(),
            j <= n,
            cfg == buckets_view(configured@),
            strings_view(names@) == lowered_names(cfg),
            result@ == (DiffResultView {
                buckets_to_add: old(result)@.buckets_to_add + buckets_missing(
                    cfg,
                    listed_buckets(lines_of(bucket_list_output@)),
                ),
                buckets_to_remove: old(result)@.buckets_to_remove + buckets_unwanted(
                    managed@.take(j as int),
                    lowered_names(cfg),
                ),
                ..old(result)@
            }),
        decreases n - j,
    {
        assert(managed@.take(j + 1).drop_last() == managed@.take(j as int));
        assert(managed@.take(j + 1).last() == managed@[j as int]);
        let name = managed.key_at(j);
        let lower = to_lowercase(name.as_str());
        let ghost r0 = result.buckets_to_remove@;
        if !strings_contain(&names, &lower) {
            result.buckets_to_remove.push(ScoopBucket { name: name.clone(), url: None });
            assert(buckets_view(result.buckets_to_remove@) =~= buckets_view(r0).push(
                ScoopBucketView { name: managed@[j as int].0, url: None },
            ));
        }
        j = j + 1;
    }
    assert(managed@.take(n as int) == managed@);
}

/// The warning for a config-file source that could not be read.
pub open spec fn unreadable_source_message(e: ConfigFileEntryView) -> Seq<char> {
    "Could not read config file source '"@ + e.src + "' for '"@ + e.dest + "'"@
}

/// The diff after judging the first `n` config files: a readable source
/// whose hash differs from the stored one is updated, one with no stored
/// hash is created, one with the same hash is left alone, and an unreadable
/// source gives a warning.
pub open spec fn config_files_judged(
    d: DiffResultView,
    entries: Seq<ConfigFileEntryView>,
    contents: Seq<Option<Vec<u8>>>,
    stored: Seq<(Seq<char>, String)>,
    n: int,
) -> DiffResultView
    decreases n,
{
    if n <= 0 {
        d
    } else {
        let prev = config_files_judged(d, entries, contents, stored, n - 1);
        let e = entries[n - 1];
        match contents[n - 1] {
            Some(bytes) => {
                let h = hex_lower(sha256(bytes@));
                match lookup(stored, e.dest) {
                    Some(old_hash) => if old_hash@ == h {
                        prev
                    } else {
                        DiffResultView {
                            config_files_to_update: prev.config_files_to_update.push(e),
                            ..prev
                        }
                    },
                    None => DiffResultView {
                        config_files_to_create: prev.config_files_to_create.push(e),
                        ..prev
                    },
                }
            },
            None => DiffResultView {
                warnings: prev.warnings.push(unreadable_source_message(e)),
                ..prev
            },
        }
    }
}

/// The stored destinations that no configured entry names, in order.
pub open spec fn stale_destinations(stored: Seq<(Seq<char>, String)>, dests: Seq<Seq<char>>) -> Seq<
    Seq<char>,
>
    decreases stored.len(),
{
    if stored.len() == 0 {
        seq![]
    } else {
        let prev = stale_destinations(stored.drop_last(), dests);
        if dests.contains(stored.last().0) {
            prev
        } else {
            prev.push(stored.last().0)
        }
    }
}

/// The destinations of the entries.
pub open spec fn destinations(entries: Seq<ConfigFileEntryView>) -> Seq<Seq<char>> {
    entries.map_values(|e: ConfigFileEntryView| e.dest)
}

/// Classifies the managed config files against the stored hashes, given the
/// content of each entry's source (`None` when it could not be read).
pub fn compute_config_files_diff(
    result: &mut DiffResult,
    config: &NTIXConfig,
    state: &State,
    contents: &Vec<Option<Vec<u8>>>,
)
    requires
        contents@.len() == config.config_files@.len(),
    ensures
        ({
            let judged = config_files_judged(
                old(result)@,
                config_files_view(config.config_files@),
                contents@,
                state.config_files@,
                config.config_files@.len() as int,
            );
            final(result)@ == (DiffResultView {
                config_files_no_longer_managed: judged.config_files_no_longer_managed
                    + stale_destinations(
                    state.config_files@,
                    destinations(config_files_view(config.config_files@)),
                ),
                ..judged
            })
        }),
{
    let ghost entries = config_files_view(config.config_files@);
    let mut dests: Vec<String> = Vec::new();
    let mut i: usize = 0;
    assert(strings_view(dests@) =~= Seq::<Seq<char>>::empty());
    while i < config.config_files.len()
        invariant
            i <= config.config_files@.len(),
            contents@.len() == config.config_files@.len(),
            entries == config_files_view(config.config_files@),
            strings_view(dests@) == destinations(entries.take(i as int)),
            result@ == config_files_judged(old(result)@, entries, contents@, state.config_files@, i as int),
        decreases config.config_files.len() - i,
    {
        let entry = &config.config_files[i];
        let ghost r0 = result@;
        let ghost d0 = dests@;
        match &contents[i] {
            Some(bytes) => {
                let h = sha256_hex(bytes.as_slice());
                match state.config_files.get(entry.dest.as_str()) {
                    Some(stored) => {
                        if *stored != h {
                            let ghost u0 = result.config_files_to_update@;
                            result.config_files_to_update.push(entry.copy());
                            assert(config_files_view(result.config_files_to_update@) =~= config_files_view(u0).push(entry@));
                        }
                    },
                    None => {
                        let ghost c0 = result.config_files_to_create@;
                        result.config_files_to_create.push(entry.copy());
                        assert(config_files_view(result.config_files_to_create@) =~= config_files_view(c0).push(entry@));
                    },
                }
            },
            None => {
                let mut m = "Could not read config file source '".to_owned();
                m.append(entry.src.as_str());
                m.append("' for '");
                m.append(entry.dest.as_str());
                m.append("'");
                let ghost w0 = result.warnings@;
                result.warnings.push(m);
                assert(strings_view(result.warnings@) =~= strings_view(w0).push(unreadable_source_message(entry@)));
            },
        }
        dests.push(entry.dest.clone());
        assert(strings_view(dests@) =~= strings_view(d0).push(entry@.dest));
        assert(entries.take(i + 1) == entries.take(i as int).push(entries[i as int]));
        assert(destinations(entries.take(i + 1)) =~= destinations(entries.take(i as int)).push(entry@.dest));
        i = i + 1;
    }
    assert(entries.take(entries.len() as int) == entries);
    let ghost judged = result@;
    let n = state.config_files.len();
    let mut j: usize = 0;
    assert(state.config_files@.take(0) == Seq::<(Seq<char>, String)>::empty());
    assert(judged.config_files_no_longer_managed + Seq::<Seq<char>>::empty() == judged.config_files_no_longer_managed);
    while j < n
        invariant
            n == state.config_files@.len(),
            j <= n,
            strings_view(dests@) == destinations(entries),
            result@ == (DiffResultView {
                config_files_no_longer_managed: judged.config_files_no_longer_managed
                    + stale_destinations(state.config_files@.take(j as int), destinations(entries)),
                ..judged
            }),
        decreases n - j,
    {
        assert(state.config_files@.take(j + 1).drop_last() == state.config_files@.take(j as int));
        assert(state.config_files@.take(j + 1).last() == state.config_files@[j as int]);
        let dest = state.config_files.key_at(j);
        let ghost m0 = result.config_files_no_longer_managed@;
        if !strings_contain(&dests, dest) {
            result.config_files_no_longer_managed.push(dest.clone());
            assert(strings_view(result.config_files_no_longer_managed@) =~= strings_view(m0).push(dest@));
        }
        j = j + 1;
    }
    assert(state.config_files@.take(n as int) == state.config_files@);
}

/// Some declared package has no pinned version.
pub open spec fn has_unpinned(pkgs: Seq<PackageEntry>) -> bool {
    exists|i: int| 0 <= i < pkgs.len() && (#[trigger] pkgs[i]).version is None
}

fn any_unpinned(pkgs: &Vec<PackageEntry>) -> (b: bool)
    ensures
        b == has_unpinned(pkgs@),
{
    let mut i: usize = 0;
    while i < pkgs.len()
        invariant
            i <= pkgs@.len(),
            forall|j: int| 0 <= j < i ==> (#[trigger] pkgs@[j]).version is Some,
        decreases pkgs.len() - i,
    {
        if pkgs[i].version.is_none() {
            return true;
        }
        i = i + 1;
    }
    false
}

/// Whether each manager (winget, Chocolatey, Scoop) is enabled and installed.
pub open spec fn usable(options: NTIXOptions, v: ValidationResult) -> (bool, bool, bool) {
    (
        options.winget.enable && v.winget_installed,
        options.chocolatey.enable && v.choco_installed,
        options.scoop.enable && v.scoop_installed,
    )
}

/// Which managers to ask for upgrades: in upgrade mode, the usable ones with
/// some unpinned package.
pub fn upgrade_checks(config: &NTIXConfig, validation: &ValidationResult, upgrade_mode: bool) -> (r: (
    bool,
    bool,
    bool,
))
    ensures
        r.0 == (upgrade_mode && has_unpinned(config.winget_packages@) && usable(
            config.options,
            *validation,
        ).0),
        r.1 == (upgrade_mode && has_unpinned(config.choco_packages@) && usable(
            config.options,
            *validation,
        ).1),
        r.2 == (upgrade_mode && has_unpinned(config.scoop_packages@) && usable(
            config.options,
            *validation,
        ).2),
{
    let w = upgrade_mode && any_unpinned(&config.winget_packages) && config.options.winget.enable
        && validation.winget_installed;
    let c = upgrade_mode && any_unpinned(&config.choco_packages) && config.options.chocolatey.enable
        && validation.choco_installed;
    let s = upgrade_mode && any_unpinned(&config.scoop_packages) && config.options.scoop.enable
        && validation.scoop_installed;
    (w, c, s)
}

/// The empty diff carrying the given warnings.
pub open spec fn diff_with_warnings(w: Seq<Seq<char>>) -> DiffResultView {
    DiffResultView { warnings: w, ..empty_diff() }
}

/// Classifying one manager's packages, when it is usable.
pub open spec fn classify_step(
    d: DiffResultView,
    pkgs: Seq<PackageEntry>,
    source: PackageManager,
    enabled: bool,
    installed: Seq<(Seq<char>, String)>,
    state: Seq<(Seq<char>, String)>,
    upgradable: Seq<(Seq<char>, UpgradeInfo)>,
    adopt: bool,
) -> DiffResultView {
    if enabled {
        classified(d, entries_view(pkgs), manager_name(source), installed, state, upgradable, adopt)
    } else {
        d
    }
}

/// A copy of a list of strings.
pub fn copy_strings(v: &Vec<String>) -> (r: Vec<String>)
    ensures
        strings_view(r@) == strings_view(v@),
{
    let mut r: Vec<String> = Vec::new();
    let mut i: usize = 0;
    while i < v.len()
        invariant
            i <= v@.len(),
            strings_view(r@) == strings_view(v@).take(i as int),
        decreases v.len() - i,
    {
        let ghost r0 = r@;
        r.push(v[i].clone());
        assert(strings_view(r@) =~= strings_view(r0).push(v@[i as int]@));
        assert(strings_view(v@).take(i + 1) == strings_view(v@).take(i as int).push(v@[i as int]@));
        i = i + 1;
    }
    assert(strings_view(v@).take(v@.len() as int) == strings_view(v@));
    r
}

/// The first stage of a diff: the manager warnings, then the declared
/// packages of winget, Chocolatey and Scoop placed in that order, each
/// manager only when it is usable.
pub fn classify_config(
    config: &NTIXConfig,
    state: &State,
    validation: &ValidationResult,
    installed: &InstalledPackages,
    winget_upgradable: &StrMap<UpgradeInfo>,
    choco_upgradable: &StrMap<UpgradeInfo>,
    scoop_upgradable: &StrMap<UpgradeInfo>,
    adopt: bool,
) -> (r: DiffResult)
    ensures
        ({
            let (we, ce, se) = usable(config.options, *validation);
            let d0 = diff_with_warnings(strings_view(validation.warnings@));
            let d1 = classify_step(
                d0,
                config.winget_packages@,
                PackageManager::Winget,
                we,
                installed.winget@,
                state.winget@,
                winget_upgradable@,
                adopt,
            );
            let d2 = classify_step(
                d1,
                config.choco_packages@,
                PackageManager::Chocolatey,
                ce,
                installed.chocolatey@,
                state.chocolatey@,
                choco_upgradable@,
                adopt,
            );
            r@ == classify_step(
                d2,
                config.scoop_packages@,
                PackageManager::Scoop,
                se,
                installed.scoop@,
                state.scoop@,
                scoop_upgradable@,
                adopt,
            )
        }),
{
    let mut result = DiffResult::default();
    result.warnings = copy_strings(&validation.warnings);
    assert(result@ == diff_with_warnings(strings_view(validation.warnings@)));
    classify_packages(
        &mut result,
        &config.winget_packages,
        PackageManager::Winget,
        config.options.winget.enable && validation.winget_installed,
        &installed.winget,
        &state.winget,
        winget_upgradable,
        adopt,
    );
    classify_packages(
        &mut result,
        &config.choco_packages,
        PackageManager::Chocolatey,
        config.options.chocolatey.enable && validation.choco_installed,
        &installed.chocolatey,
        &state.chocolatey,
        choco_upgradable,
        adopt,
    );
    classify_packages(
        &mut result,
        &config.scoop_packages,
        PackageManager::Scoop,
        config.options.scoop.enable && validation.scoop_installed,
        &installed.scoop,
        &state.scoop,
        scoop_upgradable,
        adopt,
    );
    result
}

/// Lists the orphans of every installed manager: winget, Chocolatey, Scoop.
pub fn find_all_orphans(
    result: &mut DiffResult,
    config: &NTIXConfig,
    state: &State,
    validation: &ValidationResult,
)
    ensures
        final(result)@ == (DiffResultView {
            to_remove: old(result)@.to_remove + (if validation.winget_installed {
                orphans(state.winget@, entries_view(config.winget_packages@), manager_name(PackageManager::Winget))
            } else {
                seq![]
            }) + (if validation.choco_installed {
                orphans(
                    state.chocolatey@,
                    entries_view(config.choco_packages@),
                    manager_name(PackageManager::Chocolatey),
                )
            } else {
                seq![]
            }) + (if validation.scoop_installed {
                orphans(state.scoop@, entries_view(config.scoop_packages@), manager_name(PackageManager::Scoop))
            } else {
                seq![]
            }),
            ..old(result)@
        }),
{
    let ghost r0 = result@;
    if validation.winget_installed {
        find_orphans(result, &state.winget, &config.winget_packages, PackageManager::Winget);
    }
    let ghost r1 = result@;
    if validation.choco_installed {
        find_orphans(result, &state.chocolatey, &config.choco_packages, PackageManager::Chocolatey);
    }
    let ghost r2 = result@;
    if validation.scoop_installed {
        find_orphans(result, &state.scoop, &config.scoop_packages, PackageManager::Scoop);
    }
    assert(r1.to_remove =~= r0.to_remove + (if validation.winget_installed {
        orphans(state.winget@, entries_view(config.winget_packages@), manager_name(PackageManager::Winget))
    } else {
        Seq::<PackageSpecView>::empty()
    }));
    assert(r2.to_remove =~= r1.to_remove + (if validation.choco_installed {
        orphans(
            state.chocolatey@,
            entries_view(config.choco_packages@),
            manager_name(PackageManager::Chocolatey),
        )
    } else {
        Seq::<PackageSpecView>::empty()
    }));
    assert(result@.to_remove =~= r2.to_remove + (if validation.scoop_installed {
        orphans(state.scoop@, entries_view(config.scoop_packages@), manager_name(PackageManager::Scoop))
    } else {
        Seq::<PackageSpecView>::empty()
    }));
}

/// Whether the installed scoop buckets need listing: scoop is usable and
/// the config names some bucket.
pub fn needs_bucket_list(config: &NTIXConfig, validation: &ValidationResult) -> (b: bool)
    ensures
        b == (usable(config.options, *validation).2 && config.options.scoop.buckets@.len() > 0),
{
    config.options.scoop.enable && validation.scoop_installed && config.options.scoop.buckets.len() > 0
}

} // verus!
