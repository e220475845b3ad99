use caddyup::installer::{
    binary_name, default_bin_dir, ensure_writable_dir, expand_home, go_bin_dir, has_rate_limit_module,
    is_user_owned_path, path_contains_dir, writable_path_dir, InstallError, InstallOptions,
};

#[test]
fn expands_home_dir() {
    let home = "/home/tester".to_string();

    assert_eq!(
        expand_home("~/bin".to_string(), Some(home.clone())).unwrap(),
        "/home/tester/bin"
    );
}

#[test]
fn expand_home_cases() {
    assert_eq!(expand_home("~".to_string(), Some("/h".to_string())).unwrap(), "/h");
    assert_eq!(expand_home("/opt/bin".to_string(), None).unwrap(), "/opt/bin");
    assert_eq!(expand_home("~user/bin".to_string(), None).unwrap(), "~user/bin");
    assert_eq!(expand_home("~/bin".to_string(), None).unwrap_err(), InstallError::HomeNotSet);
    assert_eq!(expand_home("~".to_string(), None).unwrap_err(), InstallError::HomeNotSet);
    assert_eq!(InstallError::HomeNotSet.message(), "HOME is not set");
}

#[test]
fn binary_name_adds_windows_extension_only_on_windows() {
    let name = binary_name("caddy", false);
    assert_eq!(name, "caddy");

    let name = binary_name("caddy", true);
    assert_eq!(name, "caddy.exe");
}

#[test]
fn go_bin_dir_prefers_gobin_then_gopath_then_home() {
    assert_eq!(go_bin_dir("  /gobin \n", "/gopath", None).unwrap(), "/gobin");
    assert_eq!(go_bin_dir(" ", "/gopath\n", None).unwrap(), "/gopath/bin");
    assert_eq!(go_bin_dir("", "", Some("/home/u".to_string())).unwrap(), "/home/u/go/bin");
    assert_eq!(go_bin_dir("", "", None).unwrap_err(), InstallError::NoGoBinDir);
    assert_eq!(
        InstallError::NoGoBinDir.message(),
        "could not determine Go binary directory"
    );
}

fn strings(v: &[&str]) -> Vec<String> {
    v.iter().map(|s| s.to_string()).collect()
}

#[test]
fn default_bin_dir_prefers_writable_path_dir() {
    let home = Some("/home/u".to_string());
    let dirs = strings(&["/usr/bin", "/home/u/missing", "/home/u/bin", "/home/u/.cargo/bin"]);
    assert_eq!(
        default_bin_dir(&dirs, &home, &vec![true, false, true, true]).unwrap(),
        "/home/u/bin"
    );
    assert_eq!(
        default_bin_dir(&dirs, &home, &vec![true, false, false, false]).unwrap(),
        "/home/u/.local/bin"
    );
    assert_eq!(
        default_bin_dir(&Vec::new(), &home, &Vec::new()).unwrap(),
        "/home/u/.local/bin"
    );
    assert_eq!(
        default_bin_dir(&dirs, &None, &vec![true, true, true, true]).unwrap_err(),
        InstallError::NoBinDir
    );
    assert_eq!(
        InstallError::NoBinDir.message(),
        "could not find a writable PATH directory and HOME is not set"
    );
}

#[test]
fn writable_path_dir_takes_first_usable_dir_of_the_user() {
    let home = Some("/home/u".to_string());
    let dirs = strings(&["/usr/bin", "/home/uu/bin", "/home/u/a", "/home/u/b"]);
    assert_eq!(writable_path_dir(&dirs, &home, &vec![true, true, false, true]), Some("/home/u/b".to_string()));
    assert_eq!(writable_path_dir(&dirs, &home, &vec![true, true, true, true]), Some("/home/u/a".to_string()));
    assert_eq!(writable_path_dir(&dirs, &home, &vec![true, true]), None);
    assert_eq!(writable_path_dir(&dirs, &None, &vec![true, true, true, true]), None);
}

#[test]
fn writability_check_reports_directory() {
    assert!(ensure_writable_dir("/tmp/x", true).is_ok());
    let err = ensure_writable_dir("/tmp/x", false).unwrap_err();
    assert_eq!(err, InstallError::NotWritable("/tmp/x".to_string()));
    assert_eq!(err.message(), "/tmp/x is not writable by the current user");
}

#[test]
fn user_owned_paths_compare_components() {
    let home = Some("/home/u".to_string());
    assert!(is_user_owned_path("/home/u/bin", &home));
    assert!(is_user_owned_path("/home/u", &home));
    assert!(!is_user_owned_path("/home/user2/bin", &home));
    assert!(!is_user_owned_path("/usr/bin", &home));
    assert!(!is_user_owned_path("/home/u/bin", &None));
}

#[test]
fn path_lookup_compares_components() {
    let dirs = vec!["/usr/bin".to_string(), "/home/u/bin/".to_string()];
    assert!(path_contains_dir(&dirs, "/home/u/bin"));
    assert!(path_contains_dir(&dirs, "/usr//bin"));
    assert!(!path_contains_dir(&dirs, "/home/u"));
}

#[test]
fn install_options_default_has_no_dir() {
    assert_eq!(InstallOptions::default().bin_dir, None);
}

#[test]
fn module_listing_check() {
    assert!(has_rate_limit_module("http.handlers.file_server v2\nhttp.handlers.rate_limit v0.1\n"));
    assert!(!has_rate_limit_module("http.handlers.rate\n"));
}
