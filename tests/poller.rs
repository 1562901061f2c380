use serde_json::Value;
use status_notifier::poller::{build_batch, classify_response, read_status, tag_batch, CycleError, StatusContent};

fn entries() -> Vec<(String, String)> {
    vec![
        ("repoA".to_string(), "/w/a.json".to_string()),
        ("repoB".to_string(), "/w/b.json".to_string()),
    ]
}

#[test]
fn two_valid_files_make_one_tagged_batch() {
    let contents = vec![Some("{\"x\":1}".to_string()), Some("{\"x\":2}".to_string())];
    let batch = build_batch(&entries(), &contents).unwrap();
    let body = serde_json::to_value(&batch).unwrap();
    let expected: Value =
        serde_json::from_str("[{\"x\":1,\"project\":\"repoA\"},{\"x\":2,\"project\":\"repoB\"}]").unwrap();
    assert_eq!(body, expected);
}

#[test]
fn project_field_is_overwritten() {
    let contents = vec![Some("{\"project\":\"other\",\"y\":[1,2]}".to_string()), Some("{}".to_string())];
    let batch = build_batch(&entries(), &contents).unwrap();
    assert_eq!(batch[0].get("project"), Some(&Value::String("repoA".to_string())));
    assert_eq!(batch[0].len(), 2);
    assert_eq!(batch[1].get("project"), Some(&Value::String("repoB".to_string())));
}

#[test]
fn unreadable_file_fails_the_cycle_before_submission() {
    let contents = vec![Some("{\"x\":1}".to_string()), None];
    match build_batch(&entries(), &contents) {
        Err(CycleError::StatusFileUnreadable { repo }) => assert_eq!(repo, "repoB"),
        other => panic!("unexpected {:?}", other),
    }
}

#[test]
fn invalid_json_fails_the_cycle() {
    let contents = vec![Some("{not json".to_string()), None];
    match build_batch(&entries(), &contents) {
        Err(CycleError::StatusFileInvalid { repo }) => assert_eq!(repo, "repoA"),
        other => panic!("unexpected {:?}", other),
    }
}

#[test]
fn non_object_json_fails_the_cycle() {
    let contents = vec![Some("{\"x\":1}".to_string()), Some("[1,2]".to_string())];
    match build_batch(&entries(), &contents) {
        Err(CycleError::StatusFileInvalid { repo }) => assert_eq!(repo, "repoB"),
        other => panic!("unexpected {:?}", other),
    }
}

#[test]
fn empty_registry_has_nothing_to_watch() {
    assert!(matches!(build_batch(&Vec::new(), &Vec::new()), Err(CycleError::NoFilesToWatch)));
}

#[test]
fn dashboard_answers() {
    assert!(classify_response(Some(200)).is_ok());
    assert!(classify_response(Some(204)).is_ok());
    assert!(classify_response(Some(299)).is_ok());
    assert!(matches!(classify_response(Some(500)), Err(CycleError::DashboardRejected { status_code: 500 })));
    assert!(matches!(classify_response(Some(302)), Err(CycleError::DashboardRejected { status_code: 302 })));
    assert!(matches!(classify_response(None), Err(CycleError::DashboardUnreachable)));
}

fn object(text: &str) -> serde_json::Map<String, Value> {
    serde_json::from_str(text).unwrap()
}

#[test]
fn tagging_keeps_order_and_sets_project() {
    let statuses = vec![
        StatusContent::Object(object("{\"x\":1,\"project\":\"old\"}")),
        StatusContent::Object(object("{\"y\":true}")),
    ];
    let batch = tag_batch(&entries(), statuses).unwrap();
    assert_eq!(batch.len(), 2);
    assert_eq!(batch[0], object("{\"x\":1,\"project\":\"repoA\"}"));
    assert_eq!(batch[1], object("{\"y\":true,\"project\":\"repoB\"}"));
}

#[test]
fn tagging_stops_at_first_failure() {
    let statuses = vec![StatusContent::Invalid, StatusContent::Unreadable];
    match tag_batch(&entries(), statuses) {
        Err(CycleError::StatusFileInvalid { repo }) => assert_eq!(repo, "repoA"),
        other => panic!("unexpected {:?}", other),
    }
    let statuses = vec![StatusContent::Object(object("{}")), StatusContent::Unreadable];
    match tag_batch(&entries(), statuses) {
        Err(CycleError::StatusFileUnreadable { repo }) => assert_eq!(repo, "repoB"),
        other => panic!("unexpected {:?}", other),
    }
    assert!(matches!(tag_batch(&Vec::new(), Vec::new()), Err(CycleError::NoFilesToWatch)));
}

#[test]
fn contents_read_as_status() {
    assert!(matches!(read_status(&None), StatusContent::Unreadable));
    assert!(matches!(read_status(&Some("[1]".to_string())), StatusContent::Invalid));
    assert!(matches!(read_status(&Some("{oops".to_string())), StatusContent::Invalid));
    match read_status(&Some("{\"a\":\"b\"}".to_string())) {
        StatusContent::Object(m) => assert_eq!(m, object("{\"a\":\"b\"}")),
        _ => panic!("expected an object"),
    }
}
