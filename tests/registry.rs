use status_notifier::registry::{Config, RegistryError};

fn sorted(mut v: Vec<(String, String)>) -> Vec<(String, String)> {
    v.sort();
    v
}

fn pair(a: &str, b: &str) -> (String, String) {
    (a.to_string(), b.to_string())
}

#[test]
fn watch_json_file_uses_path_and_file_name() {
    let mut c = Config::empty("/tmp/reg.toml".to_string());
    let r = c.watch_file("/home/u/repo/a.json".to_string(), true, false, &Vec::new(), None);
    assert_eq!(r, Ok("a.json".to_string()));
    assert_eq!(c.list_all(), vec![pair("a.json", "/home/u/repo/a.json")]);
}

#[test]
fn watch_directory_discovers_status_file() {
    let mut c = Config::empty("/tmp/reg.toml".to_string());
    let listing = vec!["src".to_string(), "status_build.json".to_string()];
    let r = c.watch_file("/home/u/myrepo".to_string(), true, true, &listing, None);
    assert_eq!(r, Ok("myrepo".to_string()));
    assert_eq!(c.list_all(), vec![pair("myrepo", "/home/u/myrepo/status_build.json")]);
}

#[test]
fn watch_directory_without_status_file_fails() {
    let mut c = Config::empty("/tmp/reg.toml".to_string());
    let listing = vec!["src".to_string(), "other.json".to_string()];
    let r = c.watch_file("/home/u/myrepo".to_string(), true, true, &listing, None);
    assert_eq!(r, Err(RegistryError::NoStatusFileFound));
    assert!(c.list_all().is_empty());
}

#[test]
fn watch_missing_path_fails() {
    let mut c = Config::empty("/tmp/reg.toml".to_string());
    let r = c.watch_file("/nowhere/a.json".to_string(), false, false, &Vec::new(), None);
    assert_eq!(r, Err(RegistryError::PathNotFound));
    assert!(c.list_all().is_empty());
}

#[test]
fn explicit_name_overrides_and_rewatch_replaces() {
    let mut c = Config::empty("/tmp/reg.toml".to_string());
    let r = c.watch_file("/a/x.json".to_string(), true, false, &Vec::new(), Some("repoA".to_string()));
    assert_eq!(r, Ok("repoA".to_string()));
    let r = c.watch_file("/a/y.json".to_string(), true, false, &Vec::new(), Some("repoA".to_string()));
    assert_eq!(r, Ok("repoA".to_string()));
    assert_eq!(c.list_all(), vec![pair("repoA", "/a/y.json")]);
}

#[test]
fn watch_then_list_then_remove() {
    let mut c = Config::empty("/tmp/reg.toml".to_string());
    c.watch_file("/a/one.json".to_string(), true, false, &Vec::new(), Some("one".to_string())).unwrap();
    c.watch_file("/a/two.json".to_string(), true, false, &Vec::new(), Some("two".to_string())).unwrap();
    assert_eq!(sorted(c.list_all()), vec![pair("one", "/a/one.json"), pair("two", "/a/two.json")]);
    assert_eq!(c.remove("one".to_string()), Some("/a/one.json".to_string()));
    assert_eq!(c.list_all(), vec![pair("two", "/a/two.json")]);
    assert_eq!(c.remove("one".to_string()), None);
    assert_eq!(c.list_all(), vec![pair("two", "/a/two.json")]);
}

#[test]
fn persisted_registry_reloads_identically() {
    let mut c = Config::empty("/tmp/reg.toml".to_string());
    c.insert_entry("repoB".to_string(), "/b/status_b.json".to_string());
    c.insert_entry("repoA".to_string(), "/a/a.json".to_string());
    let text = c.to_text().unwrap();
    assert!(text.contains("status_file"));
    let loaded = Config::create_or_load("/tmp/reg.toml".to_string(), Some(text)).unwrap();
    assert_eq!(sorted(loaded.list_all()), sorted(c.list_all()));
    assert_eq!(loaded.file_path, "/tmp/reg.toml");
}

#[test]
fn text_form_is_a_table_per_repository() {
    let mut c = Config::empty("/tmp/reg.toml".to_string());
    c.insert_entry("repoA".to_string(), "/a/a.json".to_string());
    assert_eq!(c.to_text().unwrap(), "[repoA]\nstatus_file = \"/a/a.json\"\n");
}

#[test]
fn load_without_backing_text_is_empty() {
    let c = Config::create_or_load("/tmp/none.toml".to_string(), None).unwrap();
    assert!(c.list_all().is_empty());
}

#[test]
fn load_reads_tables() {
    let text = "[r1]\nstatus_file = \"/x/s.json\"\n\n[r2]\nstatus_file = \"/y/t.json\"\n".to_string();
    let c = Config::create_or_load("/tmp/reg.toml".to_string(), Some(text)).unwrap();
    assert_eq!(sorted(c.list_all()), vec![pair("r1", "/x/s.json"), pair("r2", "/y/t.json")]);
}

#[test]
fn load_of_corrupt_text_fails() {
    let r = Config::create_or_load("/tmp/reg.toml".to_string(), Some("not [ toml".to_string()));
    assert!(matches!(r, Err(RegistryError::ConfigCorrupt)));
    let r = Config::create_or_load("/tmp/reg.toml".to_string(), Some("[r1]\nother = \"x\"\n".to_string()));
    assert!(matches!(r, Err(RegistryError::ConfigCorrupt)));
}

#[test]
fn reload_replaces_or_keeps() {
    let mut c = Config::empty("/tmp/reg.toml".to_string());
    c.insert_entry("old".to_string(), "/o.json".to_string());
    assert_eq!(c.reload(None), Ok(()));
    assert_eq!(c.list_all(), vec![pair("old", "/o.json")]);
    assert_eq!(c.reload(Some("garbage = [".to_string())), Err(RegistryError::ConfigCorrupt));
    assert_eq!(c.list_all(), vec![pair("old", "/o.json")]);
    assert_eq!(c.reload(Some("[new]\nstatus_file = \"/n.json\"\n".to_string())), Ok(()));
    assert_eq!(c.list_all(), vec![pair("new", "/n.json")]);
}

#[test]
fn watch_dotted_directory_searches_inside() {
    let mut c = Config::empty("/tmp/reg.toml".to_string());
    let listing = vec!["index.html".to_string(), "status_a.json".to_string()];
    let r = c.watch_file("/home/u/user.github.io".to_string(), true, true, &listing, None);
    assert_eq!(r, Ok("user.github.io".to_string()));
    assert_eq!(c.list_all(), vec![pair("user.github.io", "/home/u/user.github.io/status_a.json")]);
}

#[test]
fn watch_file_without_extension_searches_and_fails() {
    let mut c = Config::empty("/tmp/reg.toml".to_string());
    let r = c.watch_file("/home/u/plainfile".to_string(), true, false, &Vec::new(), None);
    assert_eq!(r, Err(RegistryError::NoStatusFileFound));
}
