use pickey::config::Rule;
use pickey::merge::{format_auto_config, format_rule, format_suggested_rule_with_auto, merge_config, ConfigMergeResult, ExistingConfig};
use pickey::suggest::{
    build_suggestions, extract_org, group_repos_by_host_and_org, GitInfo, IncludeIfRule, LocalSshOverride,
    SuggestedRule,
};

fn repos(v: &[(&str, &str)]) -> Vec<(String, String)> {
    v.iter().map(|(h, p)| (h.to_string(), p.to_string())).collect()
}

#[test]
fn org_is_first_component() {
    assert_eq!(extract_org("github.com", "Org/repo"), "Org");
    assert_eq!(extract_org("github.com", "repo"), "repo");
    assert_eq!(extract_org("ssh.dev.azure.com", "v3/ClientX/Project/Repo"), "v3/ClientX");
    assert_eq!(extract_org("ssh.dev.azure.com", "v3"), "v3");
    assert_eq!(extract_org("ssh.dev.azure.com", "v3/Solo"), "v3/Solo");
    assert_eq!(extract_org("github.com", "v3/ClientX/x"), "v3");
}

#[test]
fn groups_are_sorted_and_counted() {
    let g = group_repos_by_host_and_org(&repos(&[
        ("github.com", "Zed/a"),
        ("github.com", "Acme/b"),
        ("gitlab.com", "Acme/c"),
        ("github.com", "Acme/d"),
    ]));
    let keys: Vec<(String, String, usize)> = g.into_iter().map(|((h, o), n)| (h, o, n)).collect();
    assert_eq!(
        keys,
        vec![
            ("github.com".to_string(), "Acme".to_string(), 2),
            ("github.com".to_string(), "Zed".to_string(), 1),
            ("gitlab.com".to_string(), "Acme".to_string(), 1),
        ]
    );
    assert!(group_repos_by_host_and_org(&[]).is_empty());
}

fn include_entry(pattern: &str, cmd: Option<&str>) -> IncludeIfRule {
    IncludeIfRule {
        pattern: pattern.to_string(),
        config_path: "~/.gitconfig-work".to_string(),
        ssh_command: cmd.map(String::from),
        email: Some("w@corp.com".to_string()),
        name: None,
    }
}

#[test]
fn suggestions_from_includes_and_local_repos() {
    let info = GitInfo {
        global_ssh_command: None,
        include_ifs: vec![
            include_entry("~/work/**", Some("ssh -i ~/.ssh/work -p 222")),
            include_entry("~/none/**", None),
            include_entry("~/misc/**", Some("ssh -o IdentitiesOnly=yes")),
        ],
        global_email: None,
        global_name: None,
    };
    let per_include = vec![
        repos(&[("github.com", "WorkOrg/a"), ("github.com", "WorkOrg/b"), ("gitlab.com", "Team/x")]),
        repos(&[("github.com", "X/y")]),
        vec![],
    ];
    let locals = vec![
        LocalSshOverride {
            repo_dir: "/r1".to_string(),
            ssh_command: "ssh -i ~/.ssh/solo".to_string(),
            remote_url: Some("git@github.com:Solo/r1.git".to_string()),
            email: Some("me@solo.dev".to_string()),
            name: Some("Me".to_string()),
        },
        LocalSshOverride {
            repo_dir: "/r2".to_string(),
            ssh_command: "ssh -i ~/.ssh/other".to_string(),
            remote_url: Some("git@github.com:WorkOrg/r2.git".to_string()),
            email: None,
            name: None,
        },
    ];
    let b = build_suggestions(&info, &per_include, &locals);
    assert!(b.manual_rules.is_empty());
    let got: Vec<(String, Option<String>, String, Option<u16>)> = b
        .rules
        .iter()
        .map(|r| (r.host.clone(), r.match_pattern.clone(), r.key_display.clone(), r.port))
        .collect();
    assert_eq!(
        got,
        vec![
            ("github.com".to_string(), Some("WorkOrg/**".to_string()), "~/.ssh/work".to_string(), Some(222)),
            ("gitlab.com".to_string(), Some("Team/**".to_string()), "~/.ssh/work".to_string(), Some(222)),
            ("github.com".to_string(), Some("Solo/**".to_string()), "~/.ssh/solo".to_string(), None),
        ]
    );
    assert_eq!(b.rules[2].email.as_deref(), Some("me@solo.dev"));
    assert_eq!(b.rules[0].email.as_deref(), Some("w@corp.com"));
}

fn rule(host: &str, pat: Option<&str>, key: &str, auto: bool) -> Rule {
    Rule {
        host: host.to_string(),
        match_pattern: pat.map(String::from),
        key: key.to_string(),
        email: None,
        name: None,
        port: None,
        auto,
    }
}

fn sugg(host: &str, pat: Option<&str>, key: &str) -> SuggestedRule {
    SuggestedRule {
        host: host.to_string(),
        match_pattern: pat.map(String::from),
        key_display: key.to_string(),
        email: None,
        name: None,
        port: None,
    }
}

#[test]
fn rule_toml_layout() {
    let mut r = rule("github.com", Some("Org/*"), "~/.ssh/k", true);
    r.port = Some(2222);
    r.email = Some("a@b.c".to_string());
    r.name = Some("A B".to_string());
    assert_eq!(
        format_rule(&r),
        "[[rule]]\nauto = true\nhost = \"github.com\"\nmatch = \"Org/*\"\nkey = \"~/.ssh/k\"\nport = 2222\nemail = \"a@b.c\"\nname = \"A B\"\n"
    );
    let m = rule("h", None, "k", false);
    assert_eq!(format_rule(&m), "[[rule]]\nhost = \"h\"\nkey = \"k\"\n");
    assert_eq!(
        format_suggested_rule_with_auto(&sugg("h", None, "k")),
        "[[rule]]\nauto = true\nhost = \"h\"\nkey = \"k\"\n"
    );
    assert_eq!(
        format_auto_config(&[sugg("a", None, "k1"), sugg("b", None, "k2")]),
        "[[rule]]\nauto = true\nhost = \"a\"\nkey = \"k1\"\n\n[[rule]]\nauto = true\nhost = \"b\"\nkey = \"k2\"\n"
    );
}

#[test]
fn merge_keeps_manual_rules_and_replaces_auto_ones() {
    let existing = vec![
        rule("github.com", Some("Mine/*"), "~/.ssh/mine", false),
        rule("github.com", Some("Old/**"), "~/.ssh/old", true),
    ];
    let s = vec![sugg("github.com", Some("New/**"), "~/.ssh/new")];
    match merge_config(&ExistingConfig::Rules(&existing), &s) {
        ConfigMergeResult::Updated { toml, total, added, removed } => {
            assert_eq!(total, 2);
            assert_eq!(added, 1);
            assert_eq!(removed, 1);
            assert_eq!(
                toml,
                "[[rule]]\nhost = \"github.com\"\nmatch = \"Mine/*\"\nkey = \"~/.ssh/mine\"\n\n[[rule]]\nauto = true\nhost = \"github.com\"\nmatch = \"New/**\"\nkey = \"~/.ssh/new\"\n"
            );
        }
        _ => panic!("expected an update"),
    }
}

#[test]
fn merge_unchanged_when_auto_rules_match() {
    let existing = vec![
        rule("github.com", Some("New/**"), "~/.ssh/new", true),
        rule("h", None, "k", false),
    ];
    let s = vec![sugg("github.com", Some("New/**"), "~/.ssh/new")];
    assert!(matches!(merge_config(&ExistingConfig::Rules(&existing), &s), ConfigMergeResult::Unchanged(2)));
    assert!(matches!(merge_config(&ExistingConfig::Rules(&existing), &[]), ConfigMergeResult::Unchanged(2)));
}

#[test]
fn merge_without_config_file_writes_suggestions() {
    let s = vec![sugg("a", None, "k")];
    match merge_config(&ExistingConfig::Missing, &s) {
        ConfigMergeResult::Updated { toml, total, added, removed } => {
            assert_eq!((total, added, removed), (1, 1, 0));
            assert_eq!(toml, "[[rule]]\nauto = true\nhost = \"a\"\nkey = \"k\"\n");
        }
        _ => panic!("expected an update"),
    }
}

#[test]
fn merge_with_only_manual_rules_and_no_suggestions_is_unchanged() {
    let existing = vec![rule("h", None, "k", false)];
    assert!(matches!(merge_config(&ExistingConfig::Rules(&existing), &[]), ConfigMergeResult::Unchanged(1)));
}

#[test]
fn merge_leaves_unreadable_config_alone() {
    let s = vec![sugg("a", None, "k")];
    assert!(matches!(merge_config(&ExistingConfig::Unreadable, &s), ConfigMergeResult::Unreadable));
    assert!(matches!(merge_config(&ExistingConfig::Unreadable, &[]), ConfigMergeResult::Unreadable));
}

fn rules_from_toml(text: &str) -> Vec<Rule> {
    let value: toml::Value = toml::from_str(text).unwrap();
    let s = |t: &toml::Value, k: &str| t.get(k).and_then(|v| v.as_str()).map(String::from);
    value
        .get("rule")
        .and_then(|v| v.as_array())
        .map(|a| {
            a.iter()
                .map(|t| Rule {
                    host: s(t, "host").unwrap(),
                    match_pattern: s(t, "match"),
                    key: s(t, "key").unwrap(),
                    email: s(t, "email"),
                    name: s(t, "name"),
                    port: t.get("port").and_then(|v| v.as_integer()).map(|p| p as u16),
                    auto: t.get("auto").and_then(|v| v.as_bool()).unwrap_or(false),
                })
                .collect()
        })
        .unwrap_or_default()
}

#[test]
fn merge_written_file_is_unchanged_on_rerun() {
    let mut mine = rule("github.com", Some("Mine/*"), "~/.ssh/mine", false);
    mine.email = Some("me@home.org".to_string());
    let existing = vec![mine, rule("github.com", Some("Old/**"), "~/.ssh/old", true)];
    let mut new = sugg("github.com", Some("New/**"), "~/.ssh/new");
    new.port = Some(2222);
    new.name = Some("Work Name".to_string());
    let s = vec![new, sugg("gitlab.com", None, "~/.ssh/gl")];
    let toml = match merge_config(&ExistingConfig::Rules(&existing), &s) {
        ConfigMergeResult::Updated { toml, total, .. } => {
            assert_eq!(total, 3);
            toml
        }
        _ => panic!("expected an update"),
    };
    let reread = rules_from_toml(&toml);
    assert_eq!(reread.len(), 3);
    assert!(matches!(merge_config(&ExistingConfig::Rules(&reread), &s), ConfigMergeResult::Unchanged(3)));
}
