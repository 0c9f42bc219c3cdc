use crtag::closure::closure_of;
use crtag::registry::Registry;
use crtag::search::{DirTree, search};

fn chain_registry(edges: &[(&str, &str)]) -> Registry {
    let mut reg = Registry::new_empty();
    for (parent, child) in edges {
        reg.define(&parent.to_string());
        reg.define(&child.to_string());
    }
    for (parent, child) in edges {
        reg.add_subtags(&parent.to_string(), &vec![child.to_string()]).unwrap();
    }
    reg
}

#[test]
fn closure_follows_the_chain() {
    let reg = chain_registry(&[("a", "b"), ("b", "c")]);
    let cl = closure_of(&reg, &vec!["a".to_string()]);
    assert_eq!(cl.len(), 3);
    assert!(cl.contains(&"a".to_string()));
    assert!(cl.contains(&"b".to_string()));
    assert!(cl.contains(&"c".to_string()));
}

#[test]
fn closure_terminates_on_a_cycle() {
    let reg = chain_registry(&[("a", "b"), ("b", "a")]);
    let cl = closure_of(&reg, &vec!["a".to_string()]);
    assert_eq!(cl.len(), 2);
    assert!(cl.contains(&"a".to_string()));
    assert!(cl.contains(&"b".to_string()));
}

#[test]
fn closure_of_no_seeds_is_empty() {
    let reg = chain_registry(&[("a", "b")]);
    let cl = closure_of(&reg, &Vec::new());
    assert!(cl.is_empty());
}

#[test]
fn closure_drops_duplicate_seeds() {
    let reg = chain_registry(&[("a", "b")]);
    let cl = closure_of(&reg, &vec!["a".to_string(), "a".to_string()]);
    assert_eq!(cl.len(), 2);
    assert!(cl.contains(&"a".to_string()));
    assert!(cl.contains(&"b".to_string()));
}

#[test]
fn closure_keeps_undefined_seeds() {
    let reg = chain_registry(&[("a", "b")]);
    let cl = closure_of(&reg, &vec!["ghost_tag".to_string()]);
    assert_eq!(cl, vec!["ghost_tag".to_string()]);
}

#[test]
fn closure_of_mid_chain_seed_stays_below() {
    let reg = chain_registry(&[("a", "b"), ("b", "c")]);
    let cl = closure_of(&reg, &vec!["b".to_string()]);
    assert_eq!(cl.len(), 2);
    assert!(cl.contains(&"b".to_string()));
    assert!(cl.contains(&"c".to_string()));
    assert!(!cl.contains(&"a".to_string()));
}

fn leaf(path: &str, tags: &[&str]) -> DirTree {
    DirTree {
        path: path.to_string(),
        tags: tags.iter().map(|t| t.to_string()).collect(),
        children: Vec::new(),
    }
}

#[test]
fn search_finds_exactly_the_tagged_directories() {
    let root = DirTree {
        path: "root".to_string(),
        tags: Vec::new(),
        children: vec![
            leaf("root/a", &["x"]),
            leaf("root/b", &[]),
            leaf("root/c", &["x"]),
        ],
    };
    let found = search(&root, &vec!["x".to_string()]);
    assert_eq!(found, vec!["root/a".to_string(), "root/c".to_string()]);
}

#[test]
fn search_records_a_directory_once() {
    let root = leaf("root", &["x", "y"]);
    let found = search(&root, &vec!["x".to_string(), "y".to_string()]);
    assert_eq!(found, vec!["root".to_string()]);
}

#[test]
fn search_walks_depth_first_parent_first() {
    let mut mid = leaf("root/m", &["x"]);
    mid.children.push(leaf("root/m/deep", &["x"]));
    let root = DirTree {
        path: "root".to_string(),
        tags: vec!["x".to_string()],
        children: vec![mid, leaf("root/z", &["x"])],
    };
    let found = search(&root, &vec!["x".to_string()]);
    assert_eq!(
        found,
        vec![
            "root".to_string(),
            "root/m".to_string(),
            "root/m/deep".to_string(),
            "root/z".to_string(),
        ]
    );
}

#[test]
fn search_with_expanded_closure_finds_subtagged_directories() {
    let reg = chain_registry(&[("media", "image")]);
    let cl = closure_of(&reg, &vec!["media".to_string()]);
    let root = DirTree {
        path: "root".to_string(),
        tags: Vec::new(),
        children: vec![leaf("root/photos", &["image"]), leaf("root/docs", &["text"])],
    };
    let found = search(&root, &cl);
    assert_eq!(found, vec!["root/photos".to_string()]);
}
