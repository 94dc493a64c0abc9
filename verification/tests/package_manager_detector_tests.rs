use ntix_rs::models::ntix_config::NTIXConfig;
use ntix_rs::models::options::{ChocoOptions, NTIXOptions, ScoopOptions, WingetOptions};
use ntix_rs::models::package_entry::PackageEntry;
use ntix_rs::package_manager::package_manager_detector;

fn opts(winget_enable: bool, choco_enable: bool, scoop_enable: bool) -> NTIXOptions {
    NTIXOptions {
        winget: WingetOptions {
            enable: winget_enable,
            ..Default::default()
        },
        chocolatey: ChocoOptions {
            enable: choco_enable,
            ..Default::default()
        },
        scoop: ScoopOptions {
            enable: scoop_enable,
            ..Default::default()
        },
    }
}

#[test]
fn validate_managers_scoop_disabled_returns_valid() {
    let options = opts(false, false, false);
    let config = NTIXConfig {
        options: options.clone(),
        ..Default::default()
    };

    package_manager_detector::validate_managers(&options, &config, false, false, false);
}

#[test]
fn validate_managers_choco_disabled_returns_valid() {
    let options = opts(false, false, false);
    let config = NTIXConfig {
        options: options.clone(),
        ..Default::default()
    };

    package_manager_detector::validate_managers(&options, &config, false, false, false);
}

#[test]
fn validate_managers_scoop_packages_declared_not_enabled_generates_warning() {
    let options = opts(false, false, false);
    let config = NTIXConfig {
        options: options.clone(),
        scoop_packages: vec![PackageEntry {
            id: "pkg1".to_string(),
            version: Some("1.0".to_string()),
        }],
        ..Default::default()
    };

    let result = package_manager_detector::validate_managers(&options, &config, false, false, false);
    assert!(result
        .warnings
        .iter()
        .any(|w| w.contains("Scoop packages declared but scoop not enabled")));
}

#[test]
fn validate_managers_choco_packages_declared_not_enabled_generates_warning() {
    let options = opts(false, false, false);
    let config = NTIXConfig {
        options: options.clone(),
        choco_packages: vec![PackageEntry {
            id: "pkg1".to_string(),
            version: Some("1.0".to_string()),
        }],
        ..Default::default()
    };

    let result = package_manager_detector::validate_managers(&options, &config, false, false, false);
    assert!(result
        .warnings
        .iter()
        .any(|w| w.contains("Chocolatey packages declared but chocolatey not enabled")));
}

#[test]
fn validate_managers_sync_with_options_returns_valid() {
    let options = opts(false, false, false);
    let config = NTIXConfig {
        options: options.clone(),
        ..Default::default()
    };

    let result = package_manager_detector::validate_managers(&options, &config, false, false, false);
    assert!(result.warnings.is_empty());
}
