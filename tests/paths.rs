use status_notifier::paths::{discover_status_file, file_name, has_extension, is_status_file, join_path};

#[test]
fn file_name_is_last_component() {
    assert_eq!(file_name("/home/u/repo/a.json"), "a.json");
    assert_eq!(file_name("/home/u/repo"), "repo");
    assert_eq!(file_name("plain"), "plain");
}

#[test]
fn extension_needs_a_dot_after_the_first_character() {
    assert!(has_extension("a.json"));
    assert!(has_extension("archive.tar.gz"));
    assert!(!has_extension("repo"));
    assert!(!has_extension(".bashrc"));
}

#[test]
fn status_file_names() {
    assert!(is_status_file("status_build.json"));
    assert!(is_status_file("status_.json"));
    assert!(!is_status_file("status_build.txt"));
    assert!(!is_status_file("build_status_x.json"));
    assert!(!is_status_file("status_build"));
    assert!(!is_status_file("status_build.jsonl"));
}

#[test]
fn discovery_takes_the_first_status_file() {
    let entries = vec![
        "README.md".to_string(),
        "status_one.json".to_string(),
        "status_two.json".to_string(),
    ];
    assert_eq!(discover_status_file(&entries), Some("status_one.json".to_string()));
}

#[test]
fn discovery_of_single_status_file() {
    let entries = vec!["notes.txt".to_string(), "status_ci.json".to_string(), "data.json".to_string()];
    assert_eq!(discover_status_file(&entries), Some("status_ci.json".to_string()));
}

#[test]
fn discovery_without_status_file() {
    let entries = vec!["notes.txt".to_string(), "data.json".to_string()];
    assert_eq!(discover_status_file(&entries), None);
    assert_eq!(discover_status_file(&Vec::new()), None);
}

#[test]
fn join_adds_one_separator() {
    assert_eq!(join_path("/home/u/repo", "status_a.json"), "/home/u/repo/status_a.json");
    assert_eq!(join_path("/home/u/repo/", "status_a.json"), "/home/u/repo/status_a.json");
}
