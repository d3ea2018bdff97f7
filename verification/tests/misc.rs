use pickey::gitconfig::{choose_target, email_check_bypassed, push_blocked, ConfigTarget};
use pickey::agent::key_hint_from_listing;
use pickey::config::Rule;
use pickey::dispatch::{is_ssh_invocation, plan_ssh, SshPlan};
use pickey::gitconfig::{last_path_component, mismatched_emails};
use pickey::init::make_display_path;
use pickey::log::{level_from, shows, LogLevel};

fn strings(v: &[&str]) -> Vec<String> {
    v.iter().map(|s| s.to_string()).collect()
}

#[test]
fn mismatched_emails_are_listed_once() {
    let log = "personal@gmail.com\nWork@Corp.com\n\nPersonal@Gmail.com\nother@x.org\r\npersonal@gmail.com\n";
    assert_eq!(
        mismatched_emails(log, "work@corp.com"),
        strings(&["personal@gmail.com", "other@x.org"])
    );
    assert!(mismatched_emails("", "a@b.c").is_empty());
    assert!(mismatched_emails("A@B.C\n", "a@b.c").is_empty());
}

#[test]
fn last_components() {
    assert_eq!(last_path_component("WorkOrg/repo"), "repo");
    assert_eq!(last_path_component("repo"), "repo");
    assert_eq!(last_path_component("~/.ssh/id_work"), "id_work");
    assert_eq!(last_path_component("dir/"), "");
}

#[test]
fn key_hint() {
    assert_eq!(
        key_hint_from_listing("2048 SHA256:abc /home/me/.ssh/id_rsa (RSA)\n256 SHA256:def x (ED25519)\n")
            .as_deref(),
        Some("/home/me/.ssh/id_rsa (RSA)")
    );
    assert_eq!(
        key_hint_from_listing("256 SHA256:x my key comment (ED25519)").as_deref(),
        Some("my (ED25519)")
    );
    assert!(key_hint_from_listing("The agent has no identities.\n").is_some());
    assert!(key_hint_from_listing("no ids").is_none());
    assert!(key_hint_from_listing("").is_none());
}

#[test]
fn log_levels() {
    assert_eq!(level_from(Some("off")), LogLevel::Off);
    assert_eq!(level_from(Some("OFF")), LogLevel::Off);
    assert_eq!(level_from(Some("Off")), LogLevel::Normal);
    assert_eq!(level_from(Some("debug")), LogLevel::Debug);
    assert_eq!(level_from(Some("DEBUG")), LogLevel::Debug);
    assert_eq!(level_from(None), LogLevel::Normal);
    assert!(shows(LogLevel::Normal, false));
    assert!(!shows(LogLevel::Normal, true));
    assert!(!shows(LogLevel::Off, false));
    assert!(shows(LogLevel::Debug, true));
}

#[test]
fn ssh_invocation_detection() {
    assert!(is_ssh_invocation(&strings(&["git@github.com", "git-upload-pack 'a.git'"])));
    assert!(is_ssh_invocation(&strings(&["-o", "SendEnv=GIT_PROTOCOL"])));
    assert!(is_ssh_invocation(&strings(&["example.com", "git-upload-pack"])));
    assert!(!is_ssh_invocation(&strings(&["status"])));
    assert!(!is_ssh_invocation(&strings(&["-V"])));
    assert!(!is_ssh_invocation(&strings(&["--version"])));
    assert!(!is_ssh_invocation(&strings(&["check", "git@github.com:a/b"])));
    assert!(!is_ssh_invocation(&strings(&["example.com"])));
    assert!(!is_ssh_invocation(&[]));
}

fn rule(host: &str, pat: Option<&str>, key: &str, email: Option<&str>) -> Rule {
    Rule {
        host: host.to_string(),
        match_pattern: pat.map(String::from),
        key: key.to_string(),
        email: email.map(String::from),
        name: None,
        port: None,
        auto: false,
    }
}

#[test]
fn plans_for_ssh_arguments() {
    let rules = vec![
        rule("github.com", Some("Work/*"), "~/.ssh/work", Some("w@corp.com")),
        rule("github.com", None, "~/.ssh/me", None),
    ];
    match plan_ssh(&rules, &strings(&["git@github.com", "git-receive-pack 'Work/r.git'"])) {
        SshPlan::UseRule { rule_index, host, path, check_email } => {
            assert_eq!((rule_index, host.as_str(), path.as_str(), check_email), (0, "github.com", "Work/r", true));
        }
        _ => panic!("expected a rule"),
    }
    match plan_ssh(&rules, &strings(&["git@github.com", "git-upload-pack 'Work/r.git'"])) {
        SshPlan::UseRule { rule_index, check_email, .. } => assert_eq!((rule_index, check_email), (0, false)),
        _ => panic!("expected a rule"),
    }
    match plan_ssh(&rules, &strings(&["git@github.com", "git-receive-pack 'Me/r.git'"])) {
        SshPlan::UseRule { rule_index, check_email, .. } => assert_eq!((rule_index, check_email), (1, false)),
        _ => panic!("expected a rule"),
    }
    match plan_ssh(&rules, &strings(&["git@gitlab.com", "git-upload-pack 'a/b.git'"])) {
        SshPlan::NoRule { host, path } => assert_eq!((host.as_str(), path.as_str()), ("gitlab.com", "a/b")),
        _ => panic!("expected no rule"),
    }
    assert!(matches!(plan_ssh(&rules, &strings(&["-p", "22"])), SshPlan::Passthrough));
}

#[test]
fn display_paths() {
    assert_eq!(make_display_path("/home/me/.ssh/id", "/home/me"), "~/.ssh/id");
    assert_eq!(make_display_path("/home/me", "/home/me"), "~/");
    assert_eq!(make_display_path("/etc/ssh", "/home/me"), "/etc/ssh");
    assert_eq!(make_display_path("/home/meme/x", "/home/me"), "/home/meme/x");
}

#[test]
fn clone_target_is_preferred_over_working_directory() {
    assert_eq!(choose_target(true, true), ConfigTarget::CloneTarget);
    assert_eq!(choose_target(true, false), ConfigTarget::CloneTarget);
    assert_eq!(choose_target(false, true), ConfigTarget::WorkingDir);
    assert_eq!(choose_target(false, false), ConfigTarget::Nowhere);
}

#[test]
fn push_is_blocked_only_by_checked_mismatches() {
    assert!(email_check_bypassed(Some("1")));
    assert!(!email_check_bypassed(Some("0")));
    assert!(!email_check_bypassed(Some("11")));
    assert!(!email_check_bypassed(None));
    let m = vec!["me@home.org".to_string()];
    assert!(push_blocked(Some(&m)));
    assert!(!push_blocked(Some(&[])));
    assert!(!push_blocked(None));
}
