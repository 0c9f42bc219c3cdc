use crtag::TagError;
use crtag::registry::Registry;

#[test]
fn define_twice_keeps_one_entry() {
    let mut reg = Registry::new_empty();
    reg.define(&"a".to_string());
    reg.define(&"a".to_string());
    assert_eq!(reg.entries.len(), 1);
    assert_eq!(reg.entries[0].0, "a");
    assert_eq!(reg.entries[0].1.version, "1.0.0");
}

#[test]
fn define_all_keeps_the_given_order() {
    let mut reg = Registry::new_empty();
    reg.define_all(&vec!["b".to_string(), "a".to_string(), "b".to_string()]);
    let listed = reg.list();
    assert_eq!(listed.len(), 2);
    assert_eq!(listed[0].0, "b");
    assert_eq!(listed[1].0, "a");
}

#[test]
fn contains_sees_only_defined_names() {
    let mut reg = Registry::new_empty();
    reg.define(&"a".to_string());
    assert!(reg.contains(&"a".to_string()));
    assert!(!reg.contains(&"b".to_string()));
}

#[test]
fn add_subtags_rejects_an_unknown_parent() {
    let mut reg = Registry::new_empty();
    reg.define(&"child".to_string());
    let r = reg.add_subtags(&"nope".to_string(), &vec!["child".to_string()]);
    match r {
        Err(TagError::UnknownTags(bad)) => assert_eq!(bad, vec!["nope".to_string()]),
        _ => panic!("expected the parent to be reported"),
    }
}

#[test]
fn add_subtags_is_atomic_on_unknown_children() {
    let mut reg = Registry::new_empty();
    reg.define(&"a".to_string());
    reg.define(&"b".to_string());
    let r = reg.add_subtags(
        &"a".to_string(),
        &vec!["b".to_string(), "zz".to_string(), "yy".to_string()],
    );
    match r {
        Err(TagError::UnknownTags(bad)) => {
            assert_eq!(bad, vec!["zz".to_string(), "yy".to_string()]);
        }
        _ => panic!("expected the unknown children to be reported"),
    }
    assert!(reg.get_subtags(&"a".to_string()).unwrap().is_empty());
}

#[test]
fn add_subtags_twice_keeps_one_child() {
    let mut reg = Registry::new_empty();
    reg.define(&"a".to_string());
    reg.define(&"b".to_string());
    reg.add_subtags(&"a".to_string(), &vec!["b".to_string()]).unwrap();
    reg.add_subtags(&"a".to_string(), &vec!["b".to_string()]).unwrap();
    assert_eq!(reg.get_subtags(&"a".to_string()).unwrap(), &vec!["b".to_string()]);
}

#[test]
fn list_pairs_names_with_subtags() {
    let mut reg = Registry::new_empty();
    reg.define(&"a".to_string());
    reg.define(&"b".to_string());
    reg.add_subtags(&"a".to_string(), &vec!["b".to_string()]).unwrap();
    let listed = reg.list();
    assert_eq!(listed.len(), 2);
    assert_eq!(listed[0], ("a".to_string(), vec!["b".to_string()]));
    assert_eq!(listed[1], ("b".to_string(), Vec::new()));
}
