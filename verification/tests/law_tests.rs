use ntix_rs::execution::execution_engine::update_state;
use ntix_rs::hash::sha256_hex;
use ntix_rs::models::package_manager::PackageManager;
use ntix_rs::models::package_spec::PackageSpec;
use ntix_rs::models::state::State;
use ntix_rs::str_map::StrMap;
use ntix_rs::text::{i64_decimal, usize_decimal};

#[test]
fn str_map_reads_back_what_was_written() {
    let mut m: StrMap<i64> = StrMap::new();
    assert_eq!(m.insert("a".to_string(), 1), None);
    assert_eq!(m.insert("b".to_string(), 2), None);
    assert_eq!(m.insert("a".to_string(), 3), Some(1));
    assert_eq!(m.get("a"), Some(&3));
    assert_eq!(m.len(), 2);
    assert_eq!(m.key_at(0), "a");
    assert_eq!(m.remove("a"), Some(3));
    assert_eq!(m.get("a"), None);
    assert_eq!(m.get("b"), Some(&2));
}

#[test]
fn update_state_records_and_forgets() {
    let mut state = State::default();
    let pkg = PackageSpec { id: "fd".to_string(), version: None, source: "scoop".to_string() };
    update_state(&mut state, &pkg, true);
    assert_eq!(state.scoop.get("fd"), Some(&"latest".to_string()));
    assert!(state.winget.is_empty());
    let pinned = PackageSpec { id: "fd".to_string(), version: Some("9.0".to_string()), source: "scoop".to_string() };
    update_state(&mut state, &pinned, true);
    assert_eq!(state.scoop.get("fd"), Some(&"9.0".to_string()));
    update_state(&mut state, &pinned, false);
    assert_eq!(state.scoop.get("fd"), None);
}

#[test]
fn manager_names_round_trip() {
    for m in PackageManager::all() {
        assert_eq!(PackageManager::from_name(m.as_str()), Some(m));
    }
    assert_eq!(PackageManager::from_name("WINGET"), Some(PackageManager::Winget));
    assert_eq!(PackageManager::from_name("npm"), None);
    assert_eq!(PackageManager::from_name("WinGet"), Some(PackageManager::Winget));
    assert_eq!(PackageManager::from_name("apt"), None);
    assert_eq!(PackageManager::from_name("ChocoLatey"), PackageManager::from_name("chocolatey"));
}

#[test]
fn sha256_hex_of_known_input() {
    assert_eq!(sha256_hex(b"abc"), "ba7816bf8f01cfea414140de5dae2223b00361a396177a9cb410ff61f20015ad");
    assert_eq!(sha256_hex(b""), "e3b0c44298fc1c149afbf4c8996fb92427ae41e4649b934ca495991b7852b855");
}

#[test]
fn decimal_formatting() {
    assert_eq!(usize_decimal(0), "0");
    assert_eq!(usize_decimal(1234), "1234");
    assert_eq!(i64_decimal(-42), "-42");
    assert_eq!(i64_decimal(i64::MIN), "-9223372036854775808");
    assert_eq!(i64_decimal(i64::MAX), "9223372036854775807");
}
