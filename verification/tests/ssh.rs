use pickey::ssh::{build_ssh_args, has_port_flag, should_use_keychain, ssh_program, u16_to_decimal};

fn sample_args() -> Vec<String> {
    vec![
        "git@github.com".to_string(),
        "git-upload-pack".to_string(),
        "Org/repo.git".to_string(),
    ]
}

fn has_pair(args: &[String], a: &str, b: &str) -> bool {
    args.windows(2).any(|w| w[0] == a && w[1] == b)
}

#[test]
fn always_disables_identity_agent() {
    let args = sample_args();
    for use_keychain in [false, true] {
        for on_macos in [false, true] {
            let final_args = build_ssh_args(&args, "~/.ssh/id_work", None, use_keychain, on_macos);
            assert!(final_args
                .windows(2)
                .any(|w| w[0] == "-o" && w[1] == "IdentityAgent=none"));
        }
    }
}

#[test]
fn always_injects_identities_only() {
    let args = sample_args();
    for on_macos in [false, true] {
        let final_args = build_ssh_args(&args, "~/.ssh/id_work", None, true, on_macos);
        assert!(final_args
            .windows(2)
            .any(|w| w[0] == "-o" && w[1] == "IdentitiesOnly=yes"));
        let final_args = build_ssh_args(&args, "~/.ssh/id_work", None, false, on_macos);
        assert!(final_args
            .windows(2)
            .any(|w| w[0] == "-o" && w[1] == "IdentitiesOnly=yes"));
    }
}

#[test]
fn selected_identity_overrides_original_identities_only_no() {
    let original_args = vec![
        "-o".to_string(),
        "IdentitiesOnly=no".to_string(),
        "git@github.com".to_string(),
    ];
    let final_args = build_ssh_args(&original_args, "~/.ssh/id_work", None, false, false);
    let injected_yes = final_args
        .windows(2)
        .position(|w| w[0] == "-o" && w[1] == "IdentitiesOnly=yes")
        .unwrap();
    let original_no = final_args
        .windows(2)
        .position(|w| w[0] == "-o" && w[1] == "IdentitiesOnly=no")
        .unwrap();
    assert!(injected_yes < original_no);
}

#[test]
fn selected_identity_overrides_an_agent_from_original_args() {
    let original_args = vec![
        "-o".to_string(),
        "IdentityAgent=/tmp/agent.sock".to_string(),
        "git@github.com".to_string(),
        "git-upload-pack".to_string(),
        "Org/repo.git".to_string(),
    ];
    let final_args = build_ssh_args(&original_args, "~/.ssh/id_work", None, false, false);
    let injected_none = final_args
        .windows(2)
        .position(|w| w[0] == "-o" && w[1] == "IdentityAgent=none")
        .unwrap();
    let original_agent = final_args
        .windows(2)
        .position(|w| w[0] == "-o" && w[1] == "IdentityAgent=/tmp/agent.sock")
        .unwrap();
    assert!(injected_none < original_agent);
}

#[test]
fn preserve_explicit_port_443_from_original_args() {
    let original_args = vec![
        "-p".to_string(),
        "443".to_string(),
        "git@ssh.github.com".to_string(),
        "git-receive-pack".to_string(),
        "Org/repo.git".to_string(),
    ];
    let final_args = build_ssh_args(&original_args, "~/.ssh/id_work", Some(22), false, false);
    let p_count = final_args.iter().filter(|a| a.as_str() == "-p").count();
    assert_eq!(p_count, 1);
    let p_pos = final_args.iter().position(|a| a == "-p").unwrap();
    assert_eq!(final_args[p_pos + 1], "443");
    assert!(final_args.iter().any(|a| a == "git@ssh.github.com"));
}

#[test]
fn keychain_setting_overrides_original_use_keychain_no() {
    let original_args = vec![
        "-o".to_string(),
        "UseKeychain=no".to_string(),
        "git@github.com".to_string(),
        "git-upload-pack".to_string(),
        "Org/repo.git".to_string(),
    ];
    let final_args = build_ssh_args(&original_args, "~/.ssh/id_work", None, true, true);
    let injected_yes = final_args
        .windows(2)
        .position(|w| w[0] == "-o" && w[1] == "UseKeychain=yes")
        .unwrap();
    let original_no = final_args
        .windows(2)
        .position(|w| w[0] == "-o" && w[1] == "UseKeychain=no")
        .unwrap();
    assert!(injected_yes < original_no);
}

#[test]
fn keychain_disabled_does_not_inject_keychain_options() {
    let args = sample_args();
    for on_macos in [false, true] {
        let final_args = build_ssh_args(&args, "~/.ssh/id_work", None, false, on_macos);
        assert!(!final_args
            .windows(2)
            .any(|w| w[0] == "-o" && w[1].starts_with("UseKeychain=")));
        assert!(!final_args
            .windows(2)
            .any(|w| w[0] == "-o" && w[1].starts_with("AddKeysToAgent=")));
    }
}

#[test]
fn macos_keychain_uses_selected_key_without_exposing_agent() {
    let args = sample_args();
    let final_args = build_ssh_args(&args, "~/.ssh/id_work", None, true, true);
    assert!(has_pair(&final_args, "-i", "~/.ssh/id_work"));
    assert!(has_pair(&final_args, "-o", "UseKeychain=yes"));
    assert!(has_pair(&final_args, "-o", "IdentitiesOnly=yes"));
    assert!(has_pair(&final_args, "-o", "IdentityAgent=none"));
    assert!(!final_args
        .windows(2)
        .any(|w| w[0] == "-o" && w[1].starts_with("AddKeysToAgent=")));
    assert_eq!(ssh_program(true, true), "/usr/bin/ssh");
}

#[test]
fn macos_opt_out_falls_back_to_agent_off() {
    let args = sample_args();
    let final_args = build_ssh_args(&args, "~/.ssh/id_work", None, false, true);
    assert!(has_pair(&final_args, "-o", "IdentityAgent=none"));
    assert!(!final_args
        .windows(2)
        .any(|w| w[0] == "-o" && w[1].starts_with("UseKeychain=")));
    assert!(!final_args
        .windows(2)
        .any(|w| w[0] == "-o" && w[1].starts_with("AddKeysToAgent=")));
    assert_eq!(ssh_program(false, true), "ssh");
}

#[test]
fn non_macos_ignores_keychain_setting() {
    let args = sample_args();
    let final_args = build_ssh_args(&args, "~/.ssh/id_work", None, true, false);
    assert!(has_pair(&final_args, "-o", "IdentityAgent=none"));
    assert!(!final_args
        .windows(2)
        .any(|w| w[0] == "-o" && w[1].starts_with("UseKeychain=")));
    assert!(!final_args
        .windows(2)
        .any(|w| w[0] == "-o" && w[1].starts_with("AddKeysToAgent=")));
    assert_eq!(ssh_program(true, false), "ssh");
}

#[test]
fn exact_argument_list_with_port() {
    let args = sample_args();
    let final_args = build_ssh_args(&args, "/k", Some(2222), false, false);
    let expected: Vec<String> = [
        "-i", "/k", "-o", "IdentitiesOnly=yes", "-o", "IdentityAgent=none", "-p", "2222",
        "git@github.com", "git-upload-pack", "Org/repo.git",
    ]
    .iter()
    .map(|s| s.to_string())
    .collect();
    assert_eq!(final_args, expected);
}

#[test]
fn port_flag_detection() {
    assert!(has_port_flag(&["-p".to_string(), "22".to_string()]));
    assert!(!has_port_flag(&["-p22".to_string()]));
    assert!(!has_port_flag(&[]));
}

#[test]
fn keychain_needs_both() {
    assert!(should_use_keychain(true, true));
    assert!(!should_use_keychain(true, false));
    assert!(!should_use_keychain(false, true));
}

#[test]
fn decimal_port() {
    assert_eq!(u16_to_decimal(0), "0");
    assert_eq!(u16_to_decimal(7), "7");
    assert_eq!(u16_to_decimal(443), "443");
    assert_eq!(u16_to_decimal(65535), "65535");
}
