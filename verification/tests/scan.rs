use pickey::init::{group_key_names, is_skipped_dir, runs_pickey};

#[test]
fn hidden_and_build_directories_are_skipped() {
    assert!(is_skipped_dir(".git"));
    assert!(is_skipped_dir(".cache"));
    assert!(is_skipped_dir("node_modules"));
    assert!(is_skipped_dir("target"));
    assert!(!is_skipped_dir("src"));
    assert!(!is_skipped_dir("targets"));
    assert!(!is_skipped_dir("my.repo"));
}

#[test]
fn ssh_command_running_pickey_is_recognised() {
    assert!(runs_pickey("pickey"));
    assert!(runs_pickey("/usr/local/bin/pickey"));
    assert!(!runs_pickey("ssh -i ~/.ssh/id_work"));
    assert!(!runs_pickey(""));
}

#[test]
fn key_names_are_grouped_by_directory_and_sorted() {
    let entries = vec![
        ("~/.ssh".to_string(), "id_work".to_string()),
        ("~/keys".to_string(), "deploy".to_string()),
        ("~/.ssh".to_string(), "id_ed25519".to_string()),
        ("~/.ssh".to_string(), "id_personal".to_string()),
    ];
    let groups = group_key_names(&entries);
    assert_eq!(
        groups,
        vec![
            (
                "~/.ssh".to_string(),
                vec!["id_ed25519".to_string(), "id_personal".to_string(), "id_work".to_string()]
            ),
            ("~/keys".to_string(), vec!["deploy".to_string()]),
        ]
    );
    assert!(group_key_names(&[]).is_empty());
}
