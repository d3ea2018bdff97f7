use pickey::remote::{parse_check_target, parse_remote_url};

#[test]
fn parse_scp_style() {
    let (host, path) = parse_remote_url("git@github.com:VolvoGroup-Internal/repo.git").unwrap();
    assert_eq!(host, "github.com");
    assert_eq!(path, "VolvoGroup-Internal/repo");
}

#[test]
fn parse_ssh_url() {
    let (host, path) = parse_remote_url("ssh://git@github.com/Org/repo.git").unwrap();
    assert_eq!(host, "github.com");
    assert_eq!(path, "Org/repo");
}

#[test]
fn parse_ssh_url_with_port() {
    let (host, path) = parse_remote_url("ssh://git@github.com:22/Org/repo.git").unwrap();
    assert_eq!(host, "github.com");
    assert_eq!(path, "Org/repo");
}

#[test]
fn parse_no_dot_git() {
    let (host, path) = parse_remote_url("git@github.com:Org/repo").unwrap();
    assert_eq!(host, "github.com");
    assert_eq!(path, "Org/repo");
}

#[test]
fn cli_parse_azure_devops() {
    let (host, path) = parse_remote_url("git@ssh.dev.azure.com:v3/ClientX/Project/Repo").unwrap();
    assert_eq!(host, "ssh.dev.azure.com");
    assert_eq!(path, "v3/ClientX/Project/Repo");
}

#[test]
fn https_url_is_not_parsed() {
    assert!(parse_remote_url("https://github.com/Org/repo.git").is_none());
    assert!(parse_remote_url("ssh://github.com").is_none());
    assert!(parse_remote_url("git@github.com").is_none());
}

#[test]
fn ssh_url_without_user_keeps_leading_path_slash_rule() {
    let (host, path) = parse_remote_url("ssh://github.com//Org/repo.git").unwrap();
    assert_eq!(host, "github.com");
    assert_eq!(path, "/Org/repo");
}

#[test]
fn scp_leading_slash_is_dropped() {
    let (host, path) = parse_remote_url("git@host.example:/srv/repo.git").unwrap();
    assert_eq!(host, "host.example");
    assert_eq!(path, "srv/repo");
}

#[test]
fn check_accepts_host_path_shorthand() {
    let (host, path) = parse_check_target("github.com:Org/repo.git").unwrap();
    assert_eq!(host, "github.com");
    assert_eq!(path, "Org/repo");
    let (host, path) = parse_check_target("git@github.com:Org/repo.git").unwrap();
    assert_eq!(host, "github.com");
    assert_eq!(path, "Org/repo");
    assert!(parse_check_target("github.com").is_none());
}
