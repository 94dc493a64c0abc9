use ntix_rs::models::diff_result::DiffResult;
use ntix_rs::models::import_node::ImportNode;
use ntix_rs::models::ntix_config::NTIXConfig;
use ntix_rs::models::options::ScoopBucket;
use ntix_rs::models::package_spec::PackageSpec;
use ntix_rs::models::state::State;
use ntix_rs::report::{
    print_buckets, print_diff_tree, print_grouped, print_import_children, render_section, source_color,
    state_report, str_less, tree_branch, tree_continuation, version_suffix, Section, Segment, Style,
    VersionStyle,
};

fn spec(id: &str, version: Option<&str>, source: &str) -> PackageSpec {
    PackageSpec { id: id.to_string(), version: version.map(|v| v.to_string()), source: source.to_string() }
}

fn plain(lines: &[Vec<Segment>]) -> Vec<String> {
    lines.iter().map(|l| l.iter().map(|g| g.text.as_str()).collect::<String>()).collect()
}

#[test]
fn tree_branch_and_continuation_draw_the_tree() {
    assert_eq!(tree_branch("", true), "\u{2514}\u{2500}\u{2500} ");
    assert_eq!(tree_branch("", false), "\u{251c}\u{2500}\u{2500} ");
    assert_eq!(tree_continuation("ab", true), "ab    ");
    assert_eq!(tree_continuation("", false), "\u{2502}   ");
}

#[test]
fn version_suffix_styles() {
    let p = spec("Git.Git", Some("2.40"), "winget");
    assert_eq!(version_suffix(&p, VersionStyle::Paren), " (2.40)");
    assert_eq!(version_suffix(&p, VersionStyle::Arrow), " \u{2192} 2.40");
    assert_eq!(version_suffix(&p, VersionStyle::Hidden), "");
    assert_eq!(version_suffix(&spec("x", None, "scoop"), VersionStyle::Paren), "");
}

#[test]
fn source_color_ignores_case() {
    assert_eq!(source_color("WinGet"), Style::Purple);
    assert_eq!(source_color("chocolatey"), Style::Blue);
    assert_eq!(source_color("SCOOP"), Style::Magenta);
    assert_eq!(source_color("other"), Style::Plain);
}

#[test]
fn str_less_is_rust_string_order() {
    assert!(str_less("a", "b"));
    assert!(str_less("ab", "abc"));
    assert!(!str_less("abc", "ab"));
    assert!(!str_less("same", "same"));
    assert!(str_less("Z", "a"));
}

#[test]
fn print_grouped_sorts_managers_and_ids() {
    let pkgs = vec![
        spec("ripgrep", None, "scoop"),
        spec("b.pkg", Some("1.0"), "winget"),
        spec("a.pkg", None, "winget"),
        spec("fd", Some("9"), "scoop"),
        spec("git", Some("2"), "chocolatey"),
    ];
    let lines = print_grouped(&pkgs, VersionStyle::Paren, "");
    assert_eq!(
        plain(&lines),
        vec![
            "\u{251c}\u{2500}\u{2500} chocolatey: git (2)",
            "\u{251c}\u{2500}\u{2500} scoop (2)",
            "\u{2502}   \u{251c}\u{2500}\u{2500} fd (9)",
            "\u{2502}   \u{2514}\u{2500}\u{2500} ripgrep",
            "\u{2514}\u{2500}\u{2500} winget (2)",
            "    \u{251c}\u{2500}\u{2500} a.pkg",
            "    \u{2514}\u{2500}\u{2500} b.pkg (1.0)",
        ]
    );
    assert_eq!(lines[0][1].style, Style::Blue);
    assert_eq!(lines[1][1].style, Style::Magenta);
    assert_eq!(lines[6][1].style, Style::Purple);
}

#[test]
fn print_grouped_keeps_order_of_equal_ids() {
    let pkgs = vec![spec("same", Some("1"), "winget"), spec("same", Some("2"), "winget")];
    let lines = print_grouped(&pkgs, VersionStyle::Arrow, "");
    assert_eq!(plain(&lines)[1], "    \u{251c}\u{2500}\u{2500} same \u{2192} 1");
    assert_eq!(plain(&lines)[2], "    \u{2514}\u{2500}\u{2500} same \u{2192} 2");
}

#[test]
fn print_buckets_sorts_by_name() {
    let buckets = vec![ScoopBucket::new("versions"), ScoopBucket::new("extras")];
    let lines = print_buckets(&buckets, false);
    assert_eq!(
        plain(&lines),
        vec!["\u{2502}   \u{251c}\u{2500}\u{2500} extras", "\u{2502}   \u{2514}\u{2500}\u{2500} versions"]
    );
    assert_eq!(lines[0][1].style, Style::Magenta);
}

#[test]
fn print_import_children_nests_imports() {
    let imports = vec![
        ImportNode {
            path: "base.lua".to_string(),
            children: vec![ImportNode { path: "inner.lua".to_string(), children: Vec::new() }],
        },
        ImportNode { path: "extra.lua".to_string(), children: Vec::new() },
    ];
    let lines = print_import_children(&imports, "");
    assert_eq!(
        plain(&lines),
        vec![
            "\u{251c}\u{2500}\u{2500} base.lua",
            "\u{2502}   \u{2514}\u{2500}\u{2500} inner.lua",
            "\u{2514}\u{2500}\u{2500} extra.lua",
        ]
    );
    assert_eq!(lines[0][1].style, Style::Dimmed);
}

#[test]
fn render_section_to_install_heading_counts() {
    let diff = DiffResult { to_install: vec![spec("Git.Git", Some("2.40"), "winget")], ..Default::default() };
    let lines = render_section(&NTIXConfig::default(), &diff, Section::ToInstall, true);
    assert_eq!(
        plain(&lines),
        vec!["\u{2514}\u{2500}\u{2500} \u{2191} To install (1)", "    \u{2514}\u{2500}\u{2500} winget: Git.Git (2.40)"]
    );
    assert_eq!(lines[0][1].style, Style::Green);
}

#[test]
fn render_section_config_files_lists_new_update_orphan() {
    let diff = DiffResult {
        config_files_to_create: vec![ntix_rs::models::config_file::ConfigFileEntry {
            dest: "C:/a".to_string(),
            src: "C:/s/a".to_string(),
        }],
        config_files_no_longer_managed: vec!["C:/old".to_string()],
        ..Default::default()
    };
    let lines = render_section(&NTIXConfig::default(), &diff, Section::ConfigFiles, false);
    assert_eq!(
        plain(&lines),
        vec!["\u{251c}\u{2500}\u{2500} \u{2691} Config files (2)", "\u{2502}   [new] C:/a", "\u{2502}   [orphan] C:/old"]
    );
    assert_eq!(lines[1][1].style, Style::Green);
    assert_eq!(lines[2][1].style, Style::Red);
}

#[test]
fn print_diff_tree_empty_diff_says_nothing_to_do() {
    let lines = print_diff_tree("config.lua", &NTIXConfig::default(), &DiffResult::default(), false);
    assert_eq!(plain(&lines), vec!["config.lua", "Nothing to do."]);
    assert_eq!(lines[0][0].style, Style::Bold);
}

#[test]
fn print_diff_tree_last_section_drawn_last() {
    let diff = DiffResult {
        to_install: vec![spec("a", None, "scoop")],
        to_remove: vec![spec("b", None, "scoop")],
        ..Default::default()
    };
    let lines = print_diff_tree("config.lua", &NTIXConfig::default(), &diff, false);
    assert_eq!(
        plain(&lines),
        vec![
            "config.lua",
            "\u{251c}\u{2500}\u{2500} \u{2191} To install (1)",
            "\u{2502}   \u{2514}\u{2500}\u{2500} scoop: a",
            "\u{2514}\u{2500}\u{2500} \u{2717} Orphans (1)",
            "    \u{2514}\u{2500}\u{2500} scoop: b",
        ]
    );
}

#[test]
fn state_report_lists_packages_and_files() {
    assert_eq!(plain(&state_report(None)), vec!["No state file found."]);
    let mut state = State::default();
    assert_eq!(plain(&state_report(Some(&state))), vec!["NTIX State:", "  (empty)"]);
    state.winget.insert("Git.Git".to_string(), "latest".to_string());
    state.config_files.insert("C:/a".to_string(), "0123456789abcdef".to_string());
    let lines = state_report(Some(&state));
    assert_eq!(
        plain(&lines),
        vec!["NTIX State:", "  winget: Git.Git (latest)", "  config files:", "    C:/a (01234567)"]
    );
    assert_eq!(lines[1][1].style, Style::Cyan);
}
