use crtag::TagError;
use crtag::registry::Registry;
use crtag::sidecar::Sidecar;

fn registry_with(names: &[&str]) -> Registry {
    let mut reg = Registry::new_empty();
    for n in names {
        reg.define(&n.to_string());
    }
    reg
}

#[test]
fn add_tag_twice_equals_once() {
    let mut once = Sidecar::new_empty();
    once.add_tag(&"art".to_string());
    let mut twice = Sidecar::new_empty();
    twice.add_tag(&"art".to_string());
    twice.add_tag(&"art".to_string());
    assert_eq!(once.tags, twice.tags);
    assert_eq!(twice.tags, vec!["art".to_string()]);
}

#[test]
fn apply_tags_twice_equals_once() {
    let reg = registry_with(&["art"]);
    let mut sc = Sidecar::new_empty();
    assert!(sc.apply_tags(&reg, &vec!["art".to_string()]).is_ok());
    assert!(sc.apply_tags(&reg, &vec!["art".to_string()]).is_ok());
    assert_eq!(sc.tags, vec!["art".to_string()]);
}

#[test]
fn apply_tags_aggregates_unknown_names() {
    let reg = registry_with(&["t1", "t3"]);
    let mut sc = Sidecar::new_empty();
    let names = vec!["t1".to_string(), "t2".to_string(), "t3".to_string()];
    let r = sc.apply_tags(&reg, &names);
    match r {
        Err(TagError::UnknownTags(bad)) => {
            assert_eq!(bad, vec!["t2".to_string()]);
        }
        _ => panic!("expected the unknown name to be reported"),
    }
    assert_eq!(sc.tags, vec!["t1".to_string(), "t3".to_string()]);
}

#[test]
fn apply_tags_reports_every_unknown_name() {
    let reg = registry_with(&["known"]);
    let mut sc = Sidecar::new_empty();
    let names = vec!["bad1".to_string(), "known".to_string(), "bad2".to_string()];
    match sc.apply_tags(&reg, &names) {
        Err(TagError::UnknownTags(bad)) => {
            assert_eq!(bad, vec!["bad1".to_string(), "bad2".to_string()]);
        }
        _ => panic!("expected both unknown names to be reported"),
    }
    assert_eq!(sc.tags, vec!["known".to_string()]);
}

#[test]
fn apply_tags_stamps_tool_version() {
    let reg = registry_with(&["a"]);
    let mut sc = Sidecar::new_empty();
    assert_eq!(sc.version, "");
    assert!(sc.apply_tags(&reg, &vec!["a".to_string()]).is_ok());
    assert_eq!(sc.version, "1.0.0");
}
