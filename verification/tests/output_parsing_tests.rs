use ntix_rs::package_manager::choco_ops::{parse_choco_list, parse_choco_outdated, parse_choco_search};
use ntix_rs::package_manager::scoop_ops::{parse_scoop_info, parse_scoop_list, scoop_upgradable, scoop_upgradable_from_output, ScoopStatusItem};
use ntix_rs::package_manager::winget_ops::{
    installed_from_entries, parse_winget_list, reports_version, upgradable_from_entries, winget_search_found,
    ListError,
};

const WINGET_LIST: &str = "Name   Id        Version Available Source\n\
-----------------------------------------\n\
Vim    Vim.Vim   9.0     9.1       winget\n\
Git    Git.Git   2.40              winget\n\
Odd    Odd.App   Unknown 2.0       winget";

#[test]
fn winget_list_reads_ids_versions_and_upgrades() {
    let entries = parse_winget_list(WINGET_LIST).unwrap();
    assert_eq!(entries.len(), 3);
    assert_eq!(entries[0].id, "Vim.Vim");
    assert_eq!(entries[0].available, Some("9.1".to_string()));
    assert_eq!(entries[1].available, None);
    let installed = installed_from_entries(&entries);
    assert_eq!(installed.get("Git.Git"), Some(&"2.40".to_string()));
    let up = upgradable_from_entries(&entries);
    assert_eq!(up.len(), 1);
    assert_eq!(up.get("Vim.Vim").unwrap().available_version, "9.1");
}

#[test]
fn winget_list_drops_progress_before_carriage_return() {
    let out = format!("  -\\|/  \r{WINGET_LIST}");
    assert_eq!(parse_winget_list(&out).unwrap().len(), 3);
}

#[test]
fn winget_list_errors() {
    assert!(matches!(parse_winget_list(""), Err(ListError::NoOutput)));
    assert!(matches!(parse_winget_list("no table here"), Err(ListError::Table(_))));
    assert!(matches!(parse_winget_list("Name Id\n-------\na b"), Err(ListError::InvalidHeader(Some(_)))));
}

#[test]
fn winget_search_and_version() {
    assert!(winget_search_found("Name Id Version\n---\nGit git.git 2.40", "Git.Git"));
    assert!(!winget_search_found("No package found matching input criteria.", "Git.Git"));
    assert!(reports_version("v1.6.2771"));
    assert!(!reports_version(""));
}

#[test]
fn choco_list_and_outdated() {
    let m = parse_choco_list("git|2.40.0\n 7zip | 23.1 \n").unwrap();
    assert_eq!(m.get("git"), Some(&"2.40.0".to_string()));
    assert_eq!(m.get("7zip"), Some(&"23.1".to_string()));
    assert_eq!(m.len(), 2);
    assert!(parse_choco_list("").is_none());
    let up = parse_choco_outdated("git|2.40.0|2.41.0|false\nbad|line\n");
    assert_eq!(up.len(), 1);
    assert_eq!(up.get("git").unwrap().current_version, "2.40.0");
    assert_eq!(up.get("git").unwrap().available_version, "2.41.0");
}

#[test]
fn choco_search_answers() {
    assert_eq!(parse_choco_search("7ZIP|23.1\n", "7zip"), Some(true));
    assert_eq!(parse_choco_search("", "7zip"), Some(false));
    assert_eq!(parse_choco_search("other|1.0", "7zip"), None);
}

#[test]
fn scoop_list_info_and_status() {
    let out = "Installed apps:\n\nName    Version Source\n----    ------- ------\nfd      9.0.0   main\nbat     0.24    main\n";
    let m = parse_scoop_list(out).unwrap();
    assert_eq!(m.get("fd"), Some(&"9.0.0".to_string()));
    assert_eq!(m.get("bat"), Some(&"0.24".to_string()));
    assert_eq!(m.len(), 2);
    assert!(parse_scoop_list("").is_none());
    assert_eq!(parse_scoop_info("Name        : fd\nVersion     : 9.0.0"), Some(true));
    assert_eq!(parse_scoop_info("Couldn't find manifest for 'nope'."), Some(false));
    assert_eq!(parse_scoop_info("something else"), None);
    let items = vec![
        ScoopStatusItem { name: Some("fd".into()), current_version: Some("9.0".into()), latest_version: Some("9.1".into()) },
        ScoopStatusItem { name: Some("bat".into()), current_version: Some("1".into()), latest_version: Some("1".into()) },
        ScoopStatusItem { name: None, current_version: Some("1".into()), latest_version: Some("2".into()) },
    ];
    let up = scoop_upgradable(&items);
    assert_eq!(up.len(), 1);
    assert_eq!(up.get("fd").unwrap().available_version, "9.1");
}

#[test]
fn scoop_status_json_keeps_only_newer_versions() {
    let out = r#"[{"name":"fd","current_version":"9.0","latest_version":"9.1"},{"name":"bat","current_version":"1","latest_version":"1"}]"#;
    let up = scoop_upgradable_from_output(out);
    assert_eq!(up.len(), 1);
    assert_eq!(up.get("fd").unwrap().current_version, "9.0");
    assert_eq!(up.get("fd").unwrap().available_version, "9.1");
    assert!(up.get("bat").is_none());
}

#[test]
fn scoop_status_json_empty_or_unreadable_gives_nothing() {
    assert_eq!(scoop_upgradable_from_output("").len(), 0);
    assert_eq!(scoop_upgradable_from_output("not json").len(), 0);
    assert_eq!(scoop_upgradable_from_output("{}").len(), 0);
    assert_eq!(scoop_upgradable_from_output("[]").len(), 0);
}

#[test]
fn scoop_status_json_skips_items_missing_a_field() {
    let out = r#"[{"current_version":"1","latest_version":"2"},{"name":"rg","current_version":"13","latest_version":"14"}]"#;
    let up = scoop_upgradable_from_output(out);
    assert_eq!(up.len(), 1);
    assert_eq!(up.get("rg").unwrap().available_version, "14");
}
