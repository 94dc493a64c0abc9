use ntix_rs::models::options::WingetOptions;
use ntix_rs::package_manager::command_builder;

#[test]
fn winget_uninstall_command_has_no_package_agreements_flag() {
    let opts = WingetOptions {
        accept_agreement: true,
        ..Default::default()
    };
    let cmd = command_builder::build_winget_uninstall("test-pkg", opts).unwrap();
    assert!(cmd.contains("--accept-source-agreements"));
    assert!(!cmd.contains("--accept-package-agreements"));
}
