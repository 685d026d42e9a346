use clipd::config::{
    config_path_from, data_dir_from, default_max_history, default_min_content_len,
    default_poll_interval_ms, runtime_dir_from,
};
use std::path::PathBuf;
use clipd::Config;

#[test]
fn defaults() {
    let c = Config::default();
    assert_eq!(c.poll_interval_ms, 500);
    assert_eq!(c.max_history, 10_000);
    assert_eq!(c.min_content_len, 1);
    assert_eq!(default_poll_interval_ms(), 500);
    assert_eq!(default_max_history(), 10_000);
    assert_eq!(default_min_content_len(), 1);
    assert_eq!(
        c.ignored_apps,
        vec!["1Password", "Bitwarden", "LastPass", "KeePassXC", "Keychain"]
    );
    assert!(c.db_path.ends_with("clipd/history.db"));
    assert!(c.log_path.ends_with("clipd/clipd.log"));
    assert!(c.pid_path.ends_with("clipd/clipd.pid"));
}

#[test]
fn config_paths_end_in_clipd() {
    assert!(clipd::config::data_dir().ends_with("clipd"));
    assert!(clipd::config::runtime_dir().ends_with("clipd"));
    assert!(clipd::config::config_path().ends_with("clipd/config.toml"));
}

#[test]
fn password_managers_are_ignored() {
    let c = Config::default();
    assert!(c.should_ignore_app("1Password 7"));
    assert!(c.should_ignore_app("Bitwarden"));
    assert!(c.should_ignore_app("KeePassXC"));
    assert!(!c.should_ignore_app("Safari"));
    assert!(!c.should_ignore_app(""));
}

#[test]
fn ignoring_is_case_insensitive() {
    let c = Config::default();
    assert!(c.should_ignore_app("BITWARDEN"));
    assert!(c.should_ignore_app("lastpass helper"));
    assert_eq!(c.should_ignore_app("keychain access"), c.should_ignore_app("KEYCHAIN ACCESS"));
}

#[test]
fn empty_ignore_entry_matches_everything() {
    let mut c = Config::default();
    c.ignored_apps = vec![String::new()];
    assert!(c.should_ignore_app("Anything"));
    c.ignored_apps = Vec::new();
    assert!(!c.should_ignore_app("Anything"));
}

#[test]
fn data_dir_falls_back_to_home_then_current_dir() {
    let local = Some(PathBuf::from("/var/local"));
    let home = Some(PathBuf::from("/home/ada"));
    assert_eq!(data_dir_from(local, home.clone()), PathBuf::from("/var/local/clipd"));
    assert_eq!(data_dir_from(None, home), PathBuf::from("/home/ada/clipd"));
    assert_eq!(data_dir_from(None, None), PathBuf::from("./clipd"));
}

#[test]
fn runtime_dir_falls_back_to_data_dir() {
    let data = PathBuf::from("/home/ada/clipd");
    assert_eq!(
        runtime_dir_from(Some(PathBuf::from("/run/user/1000")), data.clone()),
        PathBuf::from("/run/user/1000/clipd")
    );
    assert_eq!(runtime_dir_from(None, data), PathBuf::from("/home/ada/clipd/clipd"));
}

#[test]
fn config_path_is_clipd_config_toml() {
    assert_eq!(
        config_path_from(Some(PathBuf::from("/etc/xdg")), None),
        PathBuf::from("/etc/xdg/clipd/config.toml")
    );
    assert_eq!(
        config_path_from(None, Some(PathBuf::from("/home/ada"))),
        PathBuf::from("/home/ada/clipd/config.toml")
    );
    assert_eq!(config_path_from(None, None), PathBuf::from("./clipd/config.toml"));
}
