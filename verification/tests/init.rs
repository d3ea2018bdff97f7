use pickey::init::{
    collect_ssh_option_value, identity_files_in_ssh_config, include_dir, include_pattern_from_config_key,
    parse_git_config_key_value, parse_port, parse_ssh_command_for_key_and_port, parse_ssh_option,
    pattern_scope, resolve_under_home, tokenize_ssh_command,
};
use pickey::suggest::{build_suggestions, GitInfo, IncludeIfRule};

#[test]
fn parse_include_key_extracts_gitdir_pattern() {
    assert_eq!(
        include_pattern_from_config_key("includeif.gitdir:~/work/**.path").as_deref(),
        Some("~/work/**")
    );
    assert_eq!(
        include_pattern_from_config_key("includeif.gitdir/i:/Users/me/Work/.path").as_deref(),
        Some("/Users/me/Work/")
    );
    assert!(include_pattern_from_config_key("includeif.onbranch:main.path").is_none());
}

#[test]
fn parse_git_config_output_preserves_values_with_spaces() {
    let (key, value) =
        parse_git_config_key_value("includeif.gitdir:~/work/**.path ~/Work Configs/git").unwrap();
    assert_eq!(key, "includeif.gitdir:~/work/**.path");
    assert_eq!(value, "~/Work Configs/git");
}

#[test]
fn parse_ssh_command_handles_quoted_paths_and_port_options() {
    let (key, port) =
        parse_ssh_command_for_key_and_port(r#"ssh -o Port=443 -i "/Users/me/Keys/work key""#);
    assert_eq!(key.as_deref(), Some("/Users/me/Keys/work key"));
    assert_eq!(port, Some(443));

    let (key, port) = parse_ssh_command_for_key_and_port(r#"ssh -i /Users/me/Keys/work key -p 2222"#);
    assert_eq!(key.as_deref(), Some("/Users/me/Keys/work key"));
    assert_eq!(port, Some(2222));

    let (key, port) = parse_ssh_command_for_key_and_port(
        r#"ssh -oIdentityFile="/Users/me/Keys/another key" -p2222"#,
    );
    assert_eq!(key.as_deref(), Some("/Users/me/Keys/another key"));
    assert_eq!(port, Some(2222));
}

#[test]
fn unresolved_include_becomes_manual_action_not_rule() {
    let pattern = "/tmp/pickey-test-nowhere/missing/**".to_string();
    let git_info = GitInfo {
        global_ssh_command: None,
        include_ifs: vec![IncludeIfRule {
            pattern: pattern.clone(),
            config_path: "~/.gitconfig-work".to_string(),
            ssh_command: Some(r#"ssh -i "/tmp/key with space""#.to_string()),
            email: Some("work@example.com".to_string()),
            name: Some("Work Name".to_string()),
        }],
        global_email: None,
        global_name: None,
    };
    let build = build_suggestions(&git_info, &[vec![]], &[]);
    assert!(build.rules.is_empty());
    assert_eq!(build.manual_rules.len(), 1);
    assert_eq!(build.manual_rules[0].pattern, pattern);
    assert_eq!(build.manual_rules[0].key_display, "/tmp/key with space".to_string());
}

#[test]
fn tokenizer_quotes_and_escapes() {
    assert_eq!(tokenize_ssh_command("ssh  -i  a"), vec!["ssh", "-i", "a"]);
    assert_eq!(tokenize_ssh_command("a 'b c' \"d e\""), vec!["a", "b c", "d e"]);
    assert_eq!(tokenize_ssh_command(r#"a\ b "x\"y" 'p\q'"#), vec!["a b", "x\"y", "p\\q"]);
    assert_eq!(tokenize_ssh_command("''"), vec![""]);
    assert_eq!(tokenize_ssh_command("end\\"), vec!["end\\"]);
    assert!(tokenize_ssh_command("   ").is_empty());
}

#[test]
fn option_value_runs_to_next_dash_word() {
    let parts: Vec<String> = ["-i", "a", "b", "-p", "1"].iter().map(|s| s.to_string()).collect();
    let (v, next) = collect_ssh_option_value(&parts, 1);
    assert_eq!(v, "a b");
    assert_eq!(next, 3);
}

#[test]
fn ssh_option_sets_key_or_port() {
    let mut key = None;
    let mut port = Some(1);
    parse_ssh_option("IdentityFile=/k", &mut key, &mut port);
    assert_eq!(key.as_deref(), Some("/k"));
    assert_eq!(port, Some(1));
    parse_ssh_option("Port=bad", &mut key, &mut port);
    assert_eq!(port, None);
    parse_ssh_option("User=git", &mut key, &mut port);
    assert_eq!(key.as_deref(), Some("/k"));
}

#[test]
fn port_parsing_follows_u16_from_str() {
    let p = |s: &str| parse_port(&s.chars().collect());
    assert_eq!(p("22"), Some(22));
    assert_eq!(p("+22"), Some(22));
    assert_eq!(p("65535"), Some(65535));
    assert_eq!(p("65536"), None);
    assert_eq!(p("99999999999"), None);
    assert_eq!(p(""), None);
    assert_eq!(p("+"), None);
    assert_eq!(p("-1"), None);
    assert_eq!(p("2a"), None);
    for s in ["0", "007", "+1", "123456", "x", "1 "] {
        assert_eq!(p(s), s.parse::<u16>().ok());
    }
}

#[test]
fn later_settings_win() {
    let (key, port) = parse_ssh_command_for_key_and_port("ssh -i /a -p 1 -o IdentityFile=/b -oPort=2");
    assert_eq!(key.as_deref(), Some("/b"));
    assert_eq!(port, Some(2));
    let (key, port) = parse_ssh_command_for_key_and_port("ssh -o IdentitiesOnly=yes");
    assert_eq!(key, None);
    assert_eq!(port, None);
}

#[test]
fn include_directories() {
    assert_eq!(include_dir("~/work/**", "/home/me"), "/home/me/work");
    assert_eq!(include_dir("/srv/code/", "/home/me"), "/srv/code");
    assert_eq!(include_dir("/srv/****//", "/home/me"), "/srv/****");
    assert_eq!(include_dir("/srv/x/****", "/home/me"), "/srv/x");
    assert_eq!(pattern_scope("~/work/**"), "~/work");
    assert_eq!(resolve_under_home("~/.gitconfig-work", "/home/me"), "/home/me/.gitconfig-work");
    assert_eq!(resolve_under_home("/etc/x", "/home/me"), "/etc/x");
    assert_eq!(resolve_under_home("~/x", ""), "x");
}

#[test]
fn identity_files_from_ssh_config() {
    let text = "Host github.com\n  IdentityFile ~/.ssh/gh\r\n# IdentityFile /nope\nIdentityFile   /abs/key  \nIdentityFile\n";
    assert_eq!(
        identity_files_in_ssh_config(text, "/home/me"),
        vec!["/home/me/.ssh/gh".to_string(), "/abs/key".to_string()]
    );
}

#[test]
fn key_value_needs_both_parts() {
    assert!(parse_git_config_key_value("novalue").is_none());
    assert!(parse_git_config_key_value("key   ").is_none());
    assert!(parse_git_config_key_value(" leading").is_none());
    assert_eq!(parse_git_config_key_value("k\t v").unwrap(), ("k", "v"));
}

#[test]
fn include_key_is_case_insensitive() {
    assert_eq!(
        include_pattern_from_config_key("includeIf.GitDir:~/w/.Path").as_deref(),
        Some("~/w/")
    );
    assert!(include_pattern_from_config_key("includeif.path").is_none());
}

#[test]
fn plain_ssh_command_splits_on_whitespace() {
    let cmd = "ssh  -i ~/.ssh/id_work\t-p 2222 ";
    let expected: Vec<String> = cmd.split_whitespace().map(String::from).collect();
    assert_eq!(tokenize_ssh_command(cmd), expected);
    assert!(tokenize_ssh_command("   ").is_empty());
}
