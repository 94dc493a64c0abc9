use ntix_rs::execution::execution_engine::{
    adopt_packages, after_operation, bucket_messages, record_bucket, failure_message, needs_recheck, operation_settled, forget_config_files, operation_message, plan_operation,
    record_bucket_added, record_bucket_removed, record_config_file, record_operation, unreported_warnings,
    Action, Operation,
};
use ntix_rs::hash::sha256_hex;
use ntix_rs::models::options::{ChocoOptions, NTIXOptions, ScoopBucket, ScoopOptions, WingetOptions};
use ntix_rs::models::package_spec::PackageSpec;
use ntix_rs::models::state::State;

fn spec(id: &str, version: Option<&str>, source: &str) -> PackageSpec {
    PackageSpec { id: id.to_string(), version: version.map(|v| v.to_string()), source: source.to_string() }
}

fn all_enabled() -> NTIXOptions {
    NTIXOptions {
        winget: WingetOptions { enable: true, ..Default::default() },
        chocolatey: ChocoOptions { enable: true, yes: true, ..Default::default() },
        scoop: ScoopOptions { enable: true, ..Default::default() },
    }
}

#[test]
fn plan_disabled_manager_skips_install_but_not_remove() {
    let options = NTIXOptions::default();
    assert!(matches!(plan_operation(&options, Operation::Install, &spec("fd", None, "scoop")), Action::Skip));
    match plan_operation(&options, Operation::Remove, &spec("fd", None, "scoop")) {
        Action::Run(cmd) => assert_eq!(cmd, "scoop uninstall fd"),
        other => panic!("unexpected {other:?}"),
    }
}

#[test]
fn plan_runs_the_built_command() {
    let options = all_enabled();
    match plan_operation(&options, Operation::Install, &spec("nodejs", Some("16.14.2"), "chocolatey")) {
        Action::Run(cmd) => assert_eq!(cmd, "choco install nodejs --version 16.14.2 -y"),
        other => panic!("unexpected {other:?}"),
    }
    match plan_operation(&options, Operation::Upgrade, &spec("fd", None, "scoop")) {
        Action::Run(cmd) => assert_eq!(cmd, "scoop update fd"),
        other => panic!("unexpected {other:?}"),
    }
    match plan_operation(&options, Operation::Install, &spec("Git.Git", Some("2.0"), "winget")) {
        Action::Run(cmd) => assert_eq!(cmd, "winget install --id Git.Git --exact --version 2.0"),
        other => panic!("unexpected {other:?}"),
    }
    match plan_operation(&options, Operation::Upgrade, &spec("Git.Git", None, "winget")) {
        Action::Run(cmd) => assert!(cmd.contains("winget upgrade") && cmd.contains("--id Git.Git")),
        other => panic!("unexpected {other:?}"),
    }
}

#[test]
fn plan_invalid_id_fails_to_build_and_unknown_source_is_unsupported() {
    let options = all_enabled();
    match plan_operation(&options, Operation::Install, &spec("bad;id", None, "chocolatey")) {
        Action::BuildFailed(e) => assert_eq!(e.message(), "Package ID contains invalid characters: bad;id"),
        other => panic!("unexpected {other:?}"),
    }
    assert!(matches!(plan_operation(&options, Operation::Remove, &spec("x", None, "npm")), Action::Unsupported));
}

#[test]
fn record_operation_updates_state_only_on_success() {
    let mut state = State::default();
    assert!(!record_operation(&mut state, Operation::Install, &spec("fd", None, "scoop"), false));
    assert!(state.scoop.is_empty());
    assert!(record_operation(&mut state, Operation::Install, &spec("fd", None, "scoop"), true));
    assert_eq!(state.scoop.get("fd"), Some(&"latest".to_string()));
    assert!(record_operation(&mut state, Operation::Remove, &spec("fd", None, "scoop"), true));
    assert!(state.scoop.is_empty());
}

#[test]
fn adopt_packages_records_versions_without_installing() {
    let mut state = State::default();
    adopt_packages(&mut state, &vec![spec("a", Some("1.0"), "winget"), spec("b", None, "chocolatey")]);
    assert_eq!(state.winget.get("a"), Some(&"1.0".to_string()));
    assert_eq!(state.chocolatey.get("b"), Some(&"latest".to_string()));
}

#[test]
fn buckets_and_config_files_are_recorded() {
    let mut state = State::default();
    let bucket = ScoopBucket { name: "extras".to_string(), url: Some("https://x".to_string()) };
    record_bucket_added(&mut state, &bucket);
    assert_eq!(state.scoop_buckets.get("extras"), Some(&Some("https://x".to_string())));
    record_bucket_removed(&mut state, &bucket);
    assert!(state.scoop_buckets.is_empty());
    record_config_file(&mut state, &"C:/a".to_string(), b"abc");
    assert_eq!(state.config_files.get("C:/a"), Some(&sha256_hex(b"abc")));
    forget_config_files(&mut state, &vec!["C:/a".to_string()]);
    assert!(state.config_files.is_empty());
}

#[test]
fn messages_name_the_operation_and_package() {
    let p = spec("Git.Git", None, "winget");
    assert_eq!(operation_message(Operation::Install, &p), "Installing winget:Git.Git...");
    assert_eq!(operation_message(Operation::Remove, &p), "Removing winget:Git.Git...");
    assert_eq!(failure_message(Operation::Upgrade, &p), "Failed to upgrading winget:Git.Git");
    let (a, f) = bucket_messages(&ScoopBucket::new("extras"), true);
    assert_eq!(a, "Adding scoop bucket: extras...");
    assert_eq!(f, "Failed to add scoop bucket: extras");
}

#[test]
fn unreported_warnings_skips_those_already_in_the_diff() {
    let found = vec!["a".to_string(), "b".to_string()];
    let reported = vec!["b".to_string()];
    assert_eq!(unreported_warnings(&found, &reported), vec!["a".to_string()]);
}

#[test]
fn failed_install_counts_when_the_manager_lists_the_package() {
    let mut listed = ntix_rs::str_map::StrMap::new();
    listed.insert("Test-Pkg".to_string(), "1.0".to_string());
    let id = "test-pkg".to_string();
    assert!(operation_settled(Operation::Install, false, Some(&listed), &id));
    assert!(!operation_settled(Operation::Install, false, None, &id));
    assert!(!operation_settled(Operation::Remove, false, Some(&listed), &id));
    assert!(operation_settled(Operation::Remove, false, Some(&listed), &"gone-pkg".to_string()));
    assert!(!operation_settled(Operation::Upgrade, false, Some(&listed), &id));
    assert!(operation_settled(Operation::Upgrade, true, None, &id));
}

#[test]
fn only_commands_that_ran_are_rechecked() {
    let options = all_enabled();
    let install = plan_operation(&options, Operation::Install, &spec("fd", None, "scoop"));
    assert!(needs_recheck(Operation::Install, &install));
    let upgrade = plan_operation(&options, Operation::Upgrade, &spec("fd", None, "scoop"));
    assert!(!needs_recheck(Operation::Upgrade, &upgrade));
    let bad = plan_operation(&options, Operation::Remove, &spec("bad id", None, "scoop"));
    assert!(!needs_recheck(Operation::Remove, &bad));
}

#[test]
fn apply_order_runs_installs_then_upgrades_then_removals() {
    let diff = ntix_rs::models::diff_result::DiffResult {
        to_remove: vec![spec("r", None, "scoop")],
        to_install: vec![spec("i1", None, "winget"), spec("i2", None, "scoop")],
        to_upgrade: vec![spec("u", None, "chocolatey")],
        ..Default::default()
    };
    let ops = ntix_rs::execution::execution_engine::apply_order(&diff);
    let got: Vec<(Operation, &str)> = ops.iter().map(|(o, p)| (*o, p.id.as_str())).collect();
    assert_eq!(
        got,
        vec![(Operation::Install, "i1"), (Operation::Install, "i2"), (Operation::Upgrade, "u"), (Operation::Remove, "r")]
    );
}

#[test]
fn after_operation_folds_result_and_stops_on_failure() {
    assert_eq!(after_operation(false, true, true), (true, false));
    assert_eq!(after_operation(false, true, false), (false, false));
    assert_eq!(after_operation(true, true, false), (false, true));
    assert_eq!(after_operation(true, false, true), (false, false));
}

#[test]
fn record_bucket_changes_state_only_after_success() {
    let mut state = State::default();
    let bucket = ScoopBucket::new("extras");
    assert!(!record_bucket(&mut state, &bucket, true, false));
    assert!(state.scoop_buckets.is_empty());
    assert!(record_bucket(&mut state, &bucket, true, true));
    assert_eq!(state.scoop_buckets.get("extras"), Some(&None));
    assert!(!record_bucket(&mut state, &bucket, false, false));
    assert_eq!(state.scoop_buckets.len(), 1);
    assert!(record_bucket(&mut state, &bucket, false, true));
    assert!(state.scoop_buckets.is_empty());
}
