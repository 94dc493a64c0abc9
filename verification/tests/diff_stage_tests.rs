use ntix_rs::diff::diff_engine::{
    apply_availability, availability_queries, classify_packages, compute_bucket_diff, compute_config_files_diff,
    find_orphans, parse_bucket_list,
};
use ntix_rs::hash::sha256_hex;
use ntix_rs::models::config_file::ConfigFileEntry;
use ntix_rs::models::diff_result::DiffResult;
use ntix_rs::models::installed_packages::UpgradeInfo;
use ntix_rs::models::ntix_config::NTIXConfig;
use ntix_rs::models::options::ScoopBucket;
use ntix_rs::models::package_entry::PackageEntry;
use ntix_rs::models::package_manager::PackageManager;
use ntix_rs::models::state::State;
use ntix_rs::str_map::StrMap;

fn entry(id: &str, version: Option<&str>) -> PackageEntry {
    PackageEntry { id: id.to_string(), version: version.map(|v| v.to_string()) }
}

fn map(pairs: &[(&str, &str)]) -> StrMap<String> {
    let mut m = StrMap::new();
    for (k, v) in pairs {
        m.insert(k.to_string(), v.to_string());
    }
    m
}

fn classify(pkgs: Vec<PackageEntry>, installed: &[(&str, &str)], state: &[(&str, &str)], upgradable: StrMap<UpgradeInfo>, adopt: bool) -> DiffResult {
    let mut d = DiffResult::default();
    classify_packages(&mut d, &pkgs, PackageManager::Winget, true, &map(installed), &map(state), &upgradable, adopt);
    d
}

fn ids(v: &[ntix_rs::models::package_spec::PackageSpec]) -> Vec<String> {
    v.iter().map(|p| p.id.clone()).collect()
}

#[test]
fn classify_new_package_is_installed() {
    let d = classify(vec![entry("Git.Git", None)], &[], &[], StrMap::new(), false);
    assert_eq!(ids(&d.to_install), vec!["Git.Git"]);
    assert_eq!(d.to_install[0].source, "winget");
}

#[test]
fn classify_pinned_in_state_not_installed_is_installed() {
    let d = classify(vec![entry("Git.Git", Some("2.0"))], &[], &[("Git.Git", "2.0")], StrMap::new(), false);
    assert_eq!(ids(&d.to_install), vec!["Git.Git"]);
}

#[test]
fn classify_pinned_version_mismatch_ignores_case_is_installed_or_skipped() {
    let d = classify(vec![entry("a", Some("1.0-BETA"))], &[("a", "1.0-beta")], &[("a", "1.0-beta")], StrMap::new(), false);
    assert_eq!(ids(&d.to_skip), vec!["a"]);
    let d = classify(vec![entry("a", Some("2.0"))], &[("a", "1.0")], &[("a", "1.0")], StrMap::new(), false);
    assert_eq!(ids(&d.to_install), vec!["a"]);
}

#[test]
fn classify_unpinned_with_upgrade_is_upgraded_to_available() {
    let mut up = StrMap::new();
    up.insert("Vim.Vim".to_string(), UpgradeInfo::new("9.0", "9.1"));
    let d = classify(vec![entry("vim.vim", None)], &[("Vim.Vim", "9.0")], &[("Vim.Vim", "9.0")], up, false);
    assert_eq!(ids(&d.to_upgrade), vec!["vim.vim"]);
    assert_eq!(d.to_upgrade[0].version, Some("9.1".to_string()));
}

#[test]
fn classify_unpinned_upgradable_but_not_installed_is_installed() {
    let mut up = StrMap::new();
    up.insert("x".to_string(), UpgradeInfo::new("1", "2"));
    let d = classify(vec![entry("x", None)], &[], &[], up, false);
    assert_eq!(ids(&d.to_install), vec!["x"]);
    assert!(d.to_upgrade.is_empty());
}

#[test]
fn classify_installed_and_managed_is_skipped_case_insensitively() {
    let d = classify(vec![entry("git.git", None)], &[("Git.Git", "2.0")], &[("GIT.GIT", "latest")], StrMap::new(), false);
    assert_eq!(ids(&d.to_skip), vec!["git.git"]);
}

#[test]
fn classify_installed_unmanaged_is_untracked_without_adopt_and_adopted_with_it() {
    let d = classify(vec![entry("x", None)], &[("x", "1.0")], &[], StrMap::new(), false);
    assert_eq!(ids(&d.to_untracked), vec!["x"]);
    assert!(d.to_adopt.is_empty());
    let d = classify(vec![entry("x", None)], &[("x", "1.0")], &[], StrMap::new(), true);
    assert_eq!(ids(&d.to_adopt), vec!["x"]);
}

#[test]
fn classify_adopt_pinned_matches_records_installed_version() {
    let d = classify(vec![entry("x", Some("1.0-RC"))], &[("x", "1.0-rc")], &[], StrMap::new(), true);
    assert_eq!(ids(&d.to_adopt), vec!["x"]);
    assert_eq!(d.to_adopt[0].version, Some("1.0-rc".to_string()));
    let d = classify(vec![entry("x", Some("2.0"))], &[("x", "1.0")], &[], StrMap::new(), true);
    assert_eq!(ids(&d.to_install), vec!["x"]);
}

#[test]
fn classify_disabled_manager_places_nothing() {
    let mut d = DiffResult::default();
    classify_packages(&mut d, &vec![entry("x", None)], PackageManager::Scoop, false, &map(&[]), &map(&[]), &StrMap::new(), true);
    assert!(d.to_install.is_empty() && d.to_skip.is_empty() && d.to_adopt.is_empty());
}

#[test]
fn classify_every_package_lands_in_one_list() {
    let pkgs = vec![entry("a", None), entry("b", Some("1")), entry("c", None), entry("d", None)];
    let d = classify(pkgs, &[("b", "1"), ("c", "1"), ("d", "1")], &[("b", "1"), ("c", "1")], StrMap::new(), false);
    let total = d.to_install.len() + d.to_upgrade.len() + d.to_skip.len() + d.to_adopt.len() + d.to_untracked.len();
    assert_eq!(total, 4);
}

#[test]
fn find_orphans_lists_managed_packages_not_declared() {
    let mut d = DiffResult::default();
    find_orphans(&mut d, &map(&[("Old.Pkg", "1.0"), ("keep", "2.0")]), &vec![entry("KEEP", None)], PackageManager::Chocolatey);
    assert_eq!(ids(&d.to_remove), vec!["Old.Pkg"]);
    assert_eq!(d.to_remove[0].version, Some("1.0".to_string()));
    assert_eq!(d.to_remove[0].source, "chocolatey");
}

#[test]
fn availability_warns_and_drops_missing_packages() {
    let mut d = DiffResult::default();
    classify_packages(&mut d, &vec![entry("gone", None), entry("maybe", None), entry("ok", None)], PackageManager::Scoop, true, &map(&[]), &map(&[]), &StrMap::new(), false);
    let state = State::default();
    let (w, c, s) = availability_queries(&d, &state, false, false, true);
    assert!(w.is_empty() && c.is_empty());
    assert_eq!(s, vec!["gone".to_string(), "maybe".to_string(), "ok".to_string()]);
    let mut answers = StrMap::new();
    answers.insert("gone".to_string(), Some(false));
    answers.insert("maybe".to_string(), None);
    answers.insert("ok".to_string(), Some(true));
    apply_availability(&mut d, &StrMap::new(), &StrMap::new(), &answers);
    assert_eq!(ids(&d.to_install), vec!["maybe", "ok"]);
    assert_eq!(
        d.warnings,
        vec!["Package not found in scoop: gone".to_string(), "Could not verify package in scoop: maybe".to_string()]
    );
}

#[test]
fn bucket_diff_adds_missing_and_removes_unwanted() {
    assert_eq!(parse_bucket_list("Name    Source\n----    ------\nMain    https://x\n\nextras  https://y"), vec!["main", "extras"]);
    let mut d = DiffResult::default();
    let configured = vec![ScoopBucket::new("Main"), ScoopBucket::new("versions")];
    let mut managed = StrMap::new();
    managed.insert("old".to_string(), None);
    managed.insert("VERSIONS".to_string(), None);
    compute_bucket_diff(&mut d, &configured, &managed, "Name Source\n---- ------\nmain x\n");
    let add: Vec<&str> = d.buckets_to_add.iter().map(|b| b.name.as_str()).collect();
    let remove: Vec<&str> = d.buckets_to_remove.iter().map(|b| b.name.as_str()).collect();
    assert_eq!(add, vec!["versions"]);
    assert_eq!(remove, vec!["old"]);
}

#[test]
fn config_files_diff_classifies_create_update_skip_orphan_and_unreadable() {
    let cfg = |d: &str| ConfigFileEntry { dest: d.to_string(), src: format!("C:/src{d}") };
    let config = NTIXConfig {
        config_files: vec![cfg("/new"), cfg("/changed"), cfg("/same"), cfg("/unreadable")],
        ..Default::default()
    };
    let mut state = State::default();
    state.config_files.insert("/changed".to_string(), sha256_hex(b"old"));
    state.config_files.insert("/same".to_string(), sha256_hex(b"same"));
    state.config_files.insert("/gone".to_string(), sha256_hex(b"x"));
    let contents = vec![Some(b"n".to_vec()), Some(b"new".to_vec()), Some(b"same".to_vec()), None];
    let mut d = DiffResult::default();
    compute_config_files_diff(&mut d, &config, &state, &contents);
    let dests = |v: &[ConfigFileEntry]| v.iter().map(|e| e.dest.clone()).collect::<Vec<_>>();
    assert_eq!(dests(&d.config_files_to_create), vec!["/new"]);
    assert_eq!(dests(&d.config_files_to_update), vec!["/changed"]);
    assert_eq!(d.config_files_no_longer_managed, vec!["/gone".to_string()]);
    assert_eq!(d.warnings, vec!["Could not read config file source 'C:/src/unreadable' for '/unreadable'".to_string()]);
}

fn cfg_entry(dest: &str, src: &str) -> ConfigFileEntry {
    ConfigFileEntry { dest: dest.to_string(), src: src.to_string() }
}

#[test]
fn compute_config_files_diff_classifies_create_update_skip_orphan() {
    let dir = "/tmp/ntix_diff_cfg";
    let dest_new = format!("{dir}/dest/new.conf");
    let dest_upd = format!("{dir}/dest/upd.conf");
    let dest_same = format!("{dir}/dest/same.conf");
    let orphan = format!("{dir}/dest/orphan.conf");

    let mut state = State::default();
    // orphan tracked but not in config
    state.config_files.insert(orphan.clone(), "x".into());
    // upd tracked with different hash
    state.config_files.insert(dest_upd.clone(), "stale-hash".into());

    let mut config = NTIXConfig::default();
    config.config_files.push(cfg_entry(&dest_new, &format!("{dir}/new.conf")));
    config.config_files.push(cfg_entry(&dest_upd, &format!("{dir}/upd.conf")));
    // same source content as a pre-tracked dest
    state.config_files.insert(dest_same.clone(), sha256_hex(b"content-same"));
    config.config_files.push(cfg_entry(&dest_same, &format!("{dir}/same.conf")));

    // The sources' contents, read in order of the entries.
    let contents = vec![
        Some(b"content-create".to_vec()),
        Some(b"content-v1".to_vec()),
        Some(b"content-same".to_vec()),
    ];
    let mut diff = DiffResult::default();
    compute_config_files_diff(&mut diff, &config, &state, &contents);

    assert_eq!(diff.config_files_to_create.len(), 1);
    assert_eq!(diff.config_files_to_create[0].dest, dest_new);
    assert_eq!(diff.config_files_to_update.len(), 1);
    assert_eq!(diff.config_files_to_update[0].dest, dest_upd);
    assert!(
        !diff.config_files_to_update.iter().any(|e| e.dest == dest_same)
            && !diff.config_files_to_create.iter().any(|e| e.dest == dest_same)
    );
    assert_eq!(diff.config_files_no_longer_managed, vec![orphan]);
}

#[test]
fn compute_config_files_diff_unreadable_source_adds_warning() {
    let dir = "/tmp/ntix_diff_cfg";
    let dest = format!("{dir}/dest/t.conf");

    let mut config = NTIXConfig::default();
    // source file does not exist on disk -> read fails -> warning
    let missing_src = format!("{dir}/missing.conf");
    config.config_files.push(cfg_entry(&dest, &missing_src));

    let state = State::default();
    let mut diff = DiffResult::default();
    compute_config_files_diff(&mut diff, &config, &state, &vec![None]);

    assert_eq!(diff.warnings.len(), 1);
    assert!(
        diff.warnings[0].contains("Could not read config file source"),
        "expected unreadable-source warning, got: {:?}",
        diff.warnings
    );
    assert!(diff.config_files_to_create.is_empty());
}
