use ntix_rs::config::config_loader::{
    extract_id, import_paths, merge_indices_fit, merge_packages_deduped, parse_config, read_bool, read_options, read_package_list,
    read_string, ConfigError, ConfigFileCheck, LuaValue, OtherValue,
};

fn s(x: &str) -> LuaValue {
    LuaValue::Str(x.to_string())
}

fn table(entries: Vec<(&str, LuaValue)>) -> LuaValue {
    LuaValue::Table(entries.into_iter().map(|(k, v)| (s(k), v)).collect())
}

fn list(values: Vec<LuaValue>) -> LuaValue {
    LuaValue::Table(
        values
            .into_iter()
            .enumerate()
            .map(|(i, v)| (LuaValue::Integer(i as i64 + 1), v))
            .collect(),
    )
}

fn entries(v: LuaValue) -> Vec<(LuaValue, LuaValue)> {
    match v {
        LuaValue::Table(t) => t,
        _ => panic!("not a table"),
    }
}

fn float(shown: &str) -> LuaValue {
    LuaValue::Other(OtherValue {
        kind: "number".to_string(),
        shown: Ok(shown.to_string()),
        coerced: Some(shown.to_string()),
    })
}

fn no_checks() -> Vec<ConfigFileCheck> {
    Vec::new()
}

#[test]
fn parse_config_valid_config_reads_options_and_packages() {
    let root = table(vec![
        (
            "options",
            table(vec![
                ("winget", table(vec![("enable", LuaValue::Boolean(true))])),
                ("chocolatey", table(vec![("enable", LuaValue::Boolean(true))])),
                ("scoop", table(vec![("enable", LuaValue::Boolean(true))])),
            ]),
        ),
        (
            "pkgs",
            table(vec![
                ("winget", list(vec![s("Git.Git")])),
                ("chocolatey", list(vec![s("nodejs")])),
                ("scoop", list(vec![s("fd")])),
            ]),
        ),
    ]);
    let config = parse_config(&root, "config.lua", &no_checks()).unwrap();
    assert!(config.options.winget.enable);
    assert!(config.options.chocolatey.enable);
    assert!(config.options.scoop.enable);
    assert_eq!(config.winget_packages.len(), 1);
    assert_eq!(config.winget_packages[0].id, "Git.Git");
    assert_eq!(config.choco_packages[0].id, "nodejs");
    assert_eq!(config.scoop_packages[0].id, "fd");
    assert!(config.config_files.is_empty());
    assert!(config.imports.is_empty());
}

#[test]
fn parse_config_missing_flags_default_to_false() {
    let root = table(vec![
        ("options", table(vec![("winget", table(vec![("enable", LuaValue::Boolean(true))]))])),
        ("pkgs", table(vec![])),
    ]);
    let config = parse_config(&root, "config.lua", &no_checks()).unwrap();
    assert!(config.options.winget.enable);
    assert!(!config.options.winget.silent);
    assert!(!config.options.winget.accept_agreement);
    assert!(!config.options.winget.disable_interactivity);
    assert!(!config.options.chocolatey.enable);
    assert!(config.options.chocolatey.params.is_none());
    let names: Vec<&str> = config.options.scoop.buckets.iter().map(|b| b.name.as_str()).collect();
    assert_eq!(names, vec!["main", "extras", "versions"]);
}

#[test]
fn parse_config_non_boolean_flag_keeps_default() {
    assert!(!read_bool(&s("yes"), false));
    assert!(read_bool(&LuaValue::Integer(0), true));
    assert!(read_bool(&LuaValue::Boolean(true), false));
}

#[test]
fn parse_config_missing_options_table_errors() {
    let root = table(vec![("pkgs", table(vec![]))]);
    let err = parse_config(&root, "config.lua", &no_checks()).unwrap_err();
    assert_eq!(err.message(), "Config error: missing top-level 'options' table");
}

#[test]
fn parse_config_missing_pkgs_table_errors() {
    let root = table(vec![("options", table(vec![])), ("pkgs", s("nope"))]);
    let err = parse_config(&root, "config.lua", &no_checks()).unwrap_err();
    assert_eq!(err.message(), "Config error: missing top-level 'pkgs' table");
}

#[test]
fn parse_config_non_table_result_errors() {
    let err = parse_config(&LuaValue::Integer(42), "C:/cfg/config.lua", &no_checks()).unwrap_err();
    assert_eq!(err.message(), "Config script must return a table (got integer): C:/cfg/config.lua");
}

#[test]
fn parse_config_package_table_without_id_skipped_and_version_read() {
    let root = table(vec![
        ("options", table(vec![])),
        (
            "pkgs",
            table(vec![(
                "winget",
                list(vec![
                    table(vec![("version", s("1.0"))]),
                    table(vec![("id", s("test-pkg"))]),
                    table(vec![("id", s("pinned")), ("version", s("2.1"))]),
                    LuaValue::Boolean(true),
                ]),
            )]),
        ),
    ]);
    let config = parse_config(&root, "config.lua", &no_checks()).unwrap();
    assert_eq!(config.winget_packages.len(), 2);
    assert_eq!(config.winget_packages[0].id, "test-pkg");
    assert!(config.winget_packages[0].version.is_none());
    assert_eq!(config.winget_packages[1].id, "pinned");
    assert_eq!(config.winget_packages[1].version, Some("2.1".to_string()));
}

#[test]
fn read_package_list_ignores_non_integer_keys_and_missing_lists() {
    let pkgs = entries(table(vec![(
        "scoop",
        LuaValue::Table(vec![
            (LuaValue::Integer(1), s("fd")),
            (s("name"), s("bat")),
            (LuaValue::Integer(2), s("ripgrep")),
        ]),
    )]));
    let scoop = read_package_list(&pkgs, "scoop").unwrap();
    let ids: Vec<&str> = scoop.iter().map(|p| p.id.as_str()).collect();
    assert_eq!(ids, vec!["fd", "ripgrep"]);
    assert!(read_package_list(&pkgs, "winget").unwrap().is_empty());
}

#[test]
fn read_options_scoop_bucket_table_form_parses_url() {
    let options = entries(table(vec![(
        "scoop",
        table(vec![(
            "buckets",
            list(vec![table(vec![("name", s("main")), ("url", s("https://github.com/ScoopInstaller/Main"))])]),
        )]),
    )]));
    let o = read_options(&options).unwrap();
    assert_eq!(o.scoop.buckets.len(), 1);
    assert_eq!(o.scoop.buckets[0].name, "main");
    assert_eq!(o.scoop.buckets[0].url, Some("https://github.com/ScoopInstaller/Main".to_string()));
}

#[test]
fn read_options_bucket_names_from_numbers_and_booleans() {
    let options = entries(table(vec![(
        "scoop",
        table(vec![(
            "buckets",
            list(vec![
                LuaValue::Integer(-42),
                LuaValue::Boolean(false),
                float("1.5"),
                table(vec![("name", LuaValue::Integer(7))]),
            ]),
        )]),
    )]));
    let o = read_options(&options).unwrap();
    let names: Vec<&str> = o.scoop.buckets.iter().map(|b| b.name.as_str()).collect();
    assert_eq!(names, vec!["-42", "false", "1.5", "7"]);
}

#[test]
fn read_options_bucket_table_without_name_errors() {
    let options = entries(table(vec![(
        "scoop",
        table(vec![("buckets", list(vec![table(vec![("url", s("https://example.com"))])]))]),
    )]));
    let err = read_options(&options).unwrap_err();
    assert_eq!(err.message(), "error converting Lua nil to String (expected string or number)");
}

#[test]
fn read_options_bucket_name_not_text_errors() {
    let options = entries(table(vec![(
        "scoop",
        table(vec![("buckets", list(vec![LuaValue::Bytes("invalid utf-8 sequence of 1 bytes from index 0".to_string())]))]),
    )]));
    let err = read_options(&options).unwrap_err();
    assert_eq!(
        err.message(),
        "error converting Lua string to &str (invalid utf-8 sequence of 1 bytes from index 0)"
    );
}

#[test]
fn read_options_unprintable_bucket_errors() {
    let bad = LuaValue::Other(OtherValue {
        kind: "userdata".to_string(),
        shown: Err("runtime error: no __tostring".to_string()),
        coerced: None,
    });
    let options = entries(table(vec![("scoop", table(vec![("buckets", list(vec![bad]))]))]));
    let err = read_options(&options).unwrap_err();
    assert_eq!(err.message(), "runtime error: no __tostring");
}

#[test]
fn read_options_scoop_all_flags() {
    let options = entries(table(vec![(
        "scoop",
        table(vec![
            ("enable", LuaValue::Boolean(true)),
            ("global", LuaValue::Boolean(true)),
            ("independent", LuaValue::Boolean(true)),
            ("noCache", LuaValue::Boolean(true)),
            ("skipHashCheck", LuaValue::Boolean(true)),
            ("arch", s("64bit")),
        ]),
    )]));
    let o = read_options(&options).unwrap();
    assert!(o.scoop.enable && o.scoop.global && o.scoop.independent && o.scoop.no_cache && o.scoop.skip_hash_check);
    assert_eq!(o.scoop.arch, Some("64bit".to_string()));
    assert_eq!(o.scoop.buckets.len(), 3);
}

#[test]
fn read_options_choco_all_flags() {
    let options = entries(table(vec![(
        "chocolatey",
        table(vec![
            ("enable", LuaValue::Boolean(true)),
            ("yes", LuaValue::Boolean(true)),
            ("force", LuaValue::Boolean(true)),
            ("ignoreDependencies", LuaValue::Boolean(true)),
            ("allowDowngrade", LuaValue::Boolean(true)),
            ("skipPowerShell", LuaValue::Boolean(true)),
            ("params", s("/GitAndUnixToolsOnPath")),
            ("pre", LuaValue::Boolean(true)),
        ]),
    )]));
    let c = read_options(&options).unwrap().chocolatey;
    assert!(c.enable && c.yes && c.force && c.ignore_dependencies && c.allow_downgrade && c.skip_power_shell && c.pre);
    assert_eq!(c.params, Some("/GitAndUnixToolsOnPath".to_string()));
}

#[test]
fn read_string_reads_text_and_falls_back() {
    assert_eq!(read_string(&s("x"), None).unwrap(), Some("x".to_string()));
    assert_eq!(read_string(&LuaValue::Nil, Some("d".to_string())).unwrap(), Some("d".to_string()));
    let err = read_string(&LuaValue::Bytes("bad".to_string()), None).unwrap_err();
    assert_eq!(err.message(), "error converting Lua string to &str (bad)");
}

fn config_with_files(files: LuaValue) -> LuaValue {
    table(vec![("options", table(vec![])), ("pkgs", table(vec![])), ("configFiles", files)])
}

fn check(abs: bool, src: &str, exists: bool) -> ConfigFileCheck {
    ConfigFileCheck { dest_absolute: abs, src: src.to_string(), src_is_file: exists }
}

#[test]
fn parse_config_files_reads_dest_keyed_entries() {
    let root = config_with_files(table(vec![("C:/Users/me/.config/kitty.conf", s("dotfiles/kitty.conf"))]));
    let checks = vec![check(true, "C:/cfg/dotfiles/kitty.conf", true)];
    let config = parse_config(&root, "config.lua", &checks).unwrap();
    assert_eq!(config.config_files.len(), 1);
    assert_eq!(config.config_files[0].dest, "C:/Users/me/.config/kitty.conf");
    assert_eq!(config.config_files[0].src, "C:/cfg/dotfiles/kitty.conf");
}

#[test]
fn parse_config_files_relative_dest_errors() {
    let root = config_with_files(table(vec![("relative/kitty.conf", s("kitty.conf"))]));
    let checks = vec![check(false, "C:/cfg/kitty.conf", true)];
    let err = parse_config(&root, "config.lua", &checks).unwrap_err();
    assert_eq!(
        err.message(),
        "runtime error: Config error: configFiles destination must be an absolute path: relative/kitty.conf"
    );
}

#[test]
fn parse_config_files_missing_src_errors() {
    let root = config_with_files(table(vec![("C:/dest.conf", s("missing.conf"))]));
    let checks = vec![check(true, "C:/cfg/missing.conf", false)];
    let err = parse_config(&root, "config.lua", &checks).unwrap_err();
    assert_eq!(
        err.message(),
        "runtime error: Config error: source file not found for configFiles entry 'C:/dest.conf': C:/cfg/missing.conf"
    );
}

#[test]
fn parse_config_files_src_not_string_errors() {
    let root = config_with_files(table(vec![("C:/dest.conf", LuaValue::Integer(3))]));
    let checks = vec![check(true, "", false)];
    let err = parse_config(&root, "config.lua", &checks).unwrap_err();
    assert!(err.message().contains("must be a source path string"));
    assert!(matches!(err, ConfigError::SourceNotString(_)));
}

#[test]
fn parse_config_files_not_a_table_errors() {
    let root = config_with_files(s("C:/x"));
    let err = parse_config(&root, "C:/cfg/config.lua", &no_checks()).unwrap_err();
    assert_eq!(
        err.message(),
        "Config error: 'configFiles' must be a table keyed by destination path (got string): C:/cfg/config.lua"
    );
}

#[test]
fn parse_config_options_error_comes_before_config_files_error() {
    let root = table(vec![
        ("options", table(vec![("scoop", table(vec![("buckets", list(vec![table(vec![])]))]))])),
        ("pkgs", table(vec![])),
        ("configFiles", s("bad")),
    ]);
    let err = parse_config(&root, "config.lua", &no_checks()).unwrap_err();
    assert!(matches!(err, ConfigError::NotAString { .. }));
}

#[test]
fn import_paths_reads_string_and_list() {
    assert_eq!(import_paths(&s("base.lua")).unwrap(), vec!["base.lua".to_string()]);
    let arg = LuaValue::Table(vec![
        (LuaValue::Integer(1), s("a.lua")),
        (LuaValue::Integer(2), s("   ")),
        (s("x"), s("ignored.lua")),
        (LuaValue::Integer(3), LuaValue::Boolean(true)),
        (LuaValue::Integer(4), s("b.lua")),
    ]);
    assert_eq!(import_paths(&arg).unwrap(), vec!["a.lua".to_string(), "b.lua".to_string()]);
}

#[test]
fn import_paths_invalid_argument_errors() {
    let err = import_paths(&LuaValue::Integer(5)).unwrap_err();
    assert_eq!(err.message(), "import() expects a file path string or an array of file path strings");
    assert!(ConfigError::ImportNotFound("C:/x.lua".to_string())
        .message()
        .contains("Import file not found: C:/x.lua"));
}

#[test]
fn extract_id_reads_strings_and_tables() {
    assert_eq!(extract_id(&s("Git.Git")).unwrap(), Some("Git.Git".to_string()));
    assert_eq!(extract_id(&table(vec![("id", s("fd"))])).unwrap(), Some("fd".to_string()));
    assert_eq!(extract_id(&table(vec![("version", s("1"))])).unwrap(), None);
    assert_eq!(extract_id(&LuaValue::Integer(1)).unwrap(), None);
    assert!(extract_id(&LuaValue::Bytes("bad".to_string())).is_err());
}

#[test]
fn merge_packages_deduped_later_wins() {
    let target = entries(list(vec![s("Base.Package"), table(vec![("id", s("Dup.Package")), ("version", s("1.0"))])]));
    let source = entries(list(vec![
        s("Unique.Package"),
        table(vec![("id", s("Dup.Package")), ("version", s("2.0"))]),
        s("Another.Unique"),
        s("Unique.Package"),
    ]));
    let plan = merge_packages_deduped(&target, &source);
    assert!(plan.error.is_none());
    // New ids go after the last index; an id already present is replaced in place.
    assert_eq!(plan.writes, vec![(3, 0), (2, 1), (4, 2), (3, 3)]);
}

#[test]
fn merge_packages_deduped_stops_at_bad_entry() {
    let target = entries(list(vec![s("a")]));
    let source = entries(list(vec![s("b"), LuaValue::Bytes("bad".to_string()), s("c")]));
    let plan = merge_packages_deduped(&target, &source);
    assert_eq!(plan.writes, vec![(2, 0)]);
    assert_eq!(plan.error.unwrap().message(), "error converting Lua string to &str (bad)");
}

#[test]
fn config_error_messages_for_load_failures() {
    assert_eq!(ConfigError::FileNotFound("C:/nonexistent.lua".to_string()).message(), "Config file not found: C:/nonexistent.lua");
    assert_eq!(ConfigError::LuaSyntax("x".to_string()).message(), "Lua syntax error: x");
    assert_eq!(ConfigError::LuaRuntime("y".to_string()).message(), "Lua runtime error: y");
    assert_eq!(ConfigError::NoValue.message(), "Lua script returned no value");
}

#[test]
fn merge_indices_fit_on_ordinary_lists() {
    let target = vec![(LuaValue::Integer(1), s("git")), (LuaValue::Integer(2), s("vim"))];
    let source = vec![(LuaValue::Integer(1), s("fd"))];
    assert!(merge_indices_fit(&target, &source));
    assert!(merge_indices_fit(&vec![], &vec![]));
}

#[test]
fn merge_indices_fit_refuses_an_index_at_the_limit() {
    let target = vec![(LuaValue::Integer(i64::MAX), s("git"))];
    assert!(!merge_indices_fit(&target, &vec![]));
}

#[test]
fn merge_indices_fit_counts_only_new_ids() {
    let target = vec![(LuaValue::Integer(i64::MAX - 1), s("git"))];
    assert!(merge_indices_fit(&target, &vec![(LuaValue::Integer(1), s("git"))]));
    assert!(!merge_indices_fit(&target, &vec![(LuaValue::Integer(1), s("fd"))]));
}

#[test]
fn merge_indices_fit_stops_at_a_bad_id() {
    let bad = LuaValue::Bytes("invalid utf-8".to_string());
    let target = vec![(LuaValue::Integer(1), bad), (LuaValue::Integer(i64::MAX), s("git"))];
    assert!(merge_indices_fit(&target, &vec![]));
}
