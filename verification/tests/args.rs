use pickey::args::parse_ssh_args;

fn args(s: &str) -> Vec<String> {
    s.split_whitespace().map(String::from).collect()
}

#[test]
fn parse_basic_github_clone() {
    let a = args("git@github.com git-upload-pack 'VolvoGroup-Internal/repo.git'");
    let inv = parse_ssh_args(&a).unwrap();
    assert_eq!(inv.host, "github.com");
    assert_eq!(inv.path, "VolvoGroup-Internal/repo");
}

#[test]
fn parse_with_ssh_options() {
    let a = args("-o StrictHostKeyChecking=no -p 22 git@github.com git-upload-pack 'Org/repo.git'");
    let inv = parse_ssh_args(&a).unwrap();
    assert_eq!(inv.host, "github.com");
    assert_eq!(inv.path, "Org/repo");
}

#[test]
fn parse_with_identity_flag() {
    let a = args("-i /tmp/key git@gitlab.com git-upload-pack 'group/subgroup/repo.git'");
    let inv = parse_ssh_args(&a).unwrap();
    assert_eq!(inv.host, "gitlab.com");
    assert_eq!(inv.path, "group/subgroup/repo");
}

#[test]
fn args_parse_azure_devops() {
    let a = args("git@ssh.dev.azure.com git-receive-pack 'v3/ClientX/Project/Repo.git'");
    let inv = parse_ssh_args(&a).unwrap();
    assert_eq!(inv.host, "ssh.dev.azure.com");
    assert_eq!(inv.path, "v3/ClientX/Project/Repo");
}

#[test]
fn parse_github_ssh_over_https_port_443_push() {
    let a = args("-p 443 git@ssh.github.com git-receive-pack 'Org/repo.git'");
    let inv = parse_ssh_args(&a).unwrap();
    assert_eq!(inv.host, "ssh.github.com");
    assert_eq!(inv.path, "Org/repo");
    assert!(inv.is_push);
}

#[test]
fn parse_no_user() {
    let a = args("example.com git-upload-pack 'test/repo.git'");
    let inv = parse_ssh_args(&a).unwrap();
    assert_eq!(inv.host, "example.com");
}

#[test]
fn parse_leading_slash() {
    let a = args("git@github.com git-upload-pack '/Org/repo.git'");
    let inv = parse_ssh_args(&a).unwrap();
    assert_eq!(inv.path, "Org/repo");
}

#[test]
fn parse_combined_command_and_path() {
    let a = vec![
        "-o".to_string(),
        "SendEnv=GIT_PROTOCOL".to_string(),
        "git@github.com".to_string(),
        "git-upload-pack 'VolvoGroup-Internal/repo.git'".to_string(),
    ];
    let inv = parse_ssh_args(&a).unwrap();
    assert_eq!(inv.host, "github.com");
    assert_eq!(inv.path, "VolvoGroup-Internal/repo");
}

#[test]
fn parse_combined_with_leading_slash() {
    let a = vec![
        "git@hem-assistans.duckdns.org".to_string(),
        "git-upload-pack '/simeon/villajakt.git'".to_string(),
    ];
    let inv = parse_ssh_args(&a).unwrap();
    assert_eq!(inv.host, "hem-assistans.duckdns.org");
    assert_eq!(inv.path, "simeon/villajakt");
}

#[test]
fn fetch_is_not_a_push() {
    let a = args("git@github.com git-upload-pack 'Org/repo.git'");
    let inv = parse_ssh_args(&a).unwrap();
    assert!(!inv.is_push);
}

#[test]
fn only_options_name_no_host() {
    assert!(parse_ssh_args(&args("-p 22 -o Foo=bar")).is_none());
    assert!(parse_ssh_args(&[]).is_none());
}

#[test]
fn option_value_at_the_end_names_no_host() {
    assert!(parse_ssh_args(&args("-i")).is_none());
}

#[test]
fn attached_option_value_is_not_the_host() {
    let a = args("-i/tmp/key -p22 git@host.example git-upload-pack 'a/b.git'");
    let inv = parse_ssh_args(&a).unwrap();
    assert_eq!(inv.host, "host.example");
    assert_eq!(inv.path, "a/b");
}

#[test]
fn double_quoted_path() {
    let a = vec!["git@github.com".to_string(), "git-upload-pack \"Org/repo.git\"".to_string()];
    let inv = parse_ssh_args(&a).unwrap();
    assert_eq!(inv.path, "Org/repo");
}

#[test]
fn unquoted_last_argument_is_the_path() {
    let a = args("git@github.com git-upload-pack Org/repo.git");
    let inv = parse_ssh_args(&a).unwrap();
    assert_eq!(inv.path, "Org/repo");
}

#[test]
fn host_after_first_at() {
    let a = args("user@name@host.example git-upload-pack 'x.git'");
    let inv = parse_ssh_args(&a).unwrap();
    assert_eq!(inv.host, "name@host.example");
    assert_eq!(inv.path, "x");
}
