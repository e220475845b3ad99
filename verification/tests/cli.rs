use caddyup::cli::{parse_command, parse_install_options, CliError, Command};
use caddyup::installer::InstallOptions;

fn args(list: &[&str]) -> Vec<String> {
    list.iter().map(|s| s.to_string()).collect()
}

#[test]
fn no_arguments_edit() {
    assert_eq!(parse_command(&args(&[])).unwrap(), Command::Edit);
}

#[test]
fn help_commands() {
    assert_eq!(parse_command(&args(&["help"])).unwrap(), Command::Help);
    assert_eq!(parse_command(&args(&["-h"])).unwrap(), Command::Help);
    assert_eq!(parse_command(&args(&["--help", "x"])).unwrap(), Command::Help);
}

#[test]
fn unknown_command_is_reported() {
    assert_eq!(
        parse_command(&args(&["frobnicate"])).unwrap_err(),
        CliError::UnknownCommand("frobnicate".to_string())
    );
}

#[test]
fn install_options() {
    assert_eq!(
        parse_command(&args(&["install-caddy"])).unwrap(),
        Command::InstallCaddy(InstallOptions { bin_dir: None })
    );
    assert_eq!(
        parse_command(&args(&["install-caddy", "--bin-dir", "~/bin"])).unwrap(),
        Command::InstallCaddy(InstallOptions { bin_dir: Some("~/bin".to_string()) })
    );
    assert_eq!(
        parse_install_options(&args(&["--bin-dir", "a", "--bin-dir", "b"])).unwrap(),
        Command::InstallCaddy(InstallOptions { bin_dir: Some("b".to_string()) })
    );
    assert_eq!(
        parse_install_options(&args(&["--help", "--bogus"])).unwrap(),
        Command::InstallHelp
    );
    assert_eq!(
        parse_install_options(&args(&["--bin-dir"])).unwrap_err(),
        CliError::MissingBinDir
    );
    assert_eq!(
        parse_install_options(&args(&["--bogus"])).unwrap_err(),
        CliError::UnknownInstallOption("--bogus".to_string())
    );
}
