use pickey::config::{config_path_in, expand_tilde, expand_tilde_in, Rule};

#[test]
fn tilde_expansion() {
    let expanded = expand_tilde("~/.ssh/id_rsa");
    assert!(expanded.contains(".ssh/id_rsa"));
    assert!(!expanded.starts_with('~'));
}

#[test]
fn no_tilde() {
    let expanded = expand_tilde("/absolute/path/key");
    assert_eq!(expanded, "/absolute/path/key");
}

#[test]
fn tilde_against_given_home() {
    assert_eq!(expand_tilde_in("~/.ssh/id", Some("/home/me")), "/home/me/.ssh/id");
    assert_eq!(expand_tilde_in("~/.ssh/id", Some("/home/me/")), "/home/me/.ssh/id");
    assert_eq!(expand_tilde_in("~", Some("/home/me")), "/home/me");
    assert_eq!(expand_tilde_in("~/.ssh/id", None), "~/.ssh/id");
    assert_eq!(expand_tilde_in("~other/key", Some("/home/me")), "~other/key");
    assert_eq!(expand_tilde_in("~//abs", Some("/home/me")), "/abs");
}

#[test]
fn config_path_under_home() {
    assert_eq!(config_path_in(Some("/home/me")), "/home/me/.config/pickey/config.toml");
    assert_eq!(config_path_in(None), "~/.config/pickey/config.toml");
}

#[test]
fn expanded_key_leaves_absolute_paths() {
    let r = Rule {
        host: "github.com".to_string(),
        match_pattern: None,
        key: "/keys/id".to_string(),
        email: None,
        name: None,
        port: None,
        auto: false,
    };
    assert_eq!(r.expanded_key(), "/keys/id");
}
