use crtag::TagError;
use crtag::locate::{definitions_path_at, locate_definitions, sidecar_path};

#[test]
fn discovery_walks_up_to_the_nearest_registry() {
    // root/.crtag/CRTagDefinitions.toml exists; the walk starts in root/x/y/z.
    let start = vec!["root".to_string(), "x".to_string(), "y".to_string(), "z".to_string()];
    let present = vec![false, false, false, true, false];
    let depth = locate_definitions(&present).unwrap();
    assert_eq!(depth, 3);
    let path = definitions_path_at(&start, depth);
    assert_eq!(
        path,
        vec!["root".to_string(), ".crtag".to_string(), "CRTagDefinitions.toml".to_string()]
    );
}

#[test]
fn discovery_prefers_the_nearest_of_two() {
    let present = vec![true, true];
    assert_eq!(locate_definitions(&present).unwrap(), 0);
}

#[test]
fn discovery_reaches_the_filesystem_root() {
    let present = vec![false, false, true];
    assert_eq!(locate_definitions(&present).unwrap(), 2);
}

#[test]
fn discovery_fails_when_nothing_is_found() {
    let present = vec![false, false, false];
    assert!(matches!(locate_definitions(&present), Err(TagError::NotFound)));
}

#[test]
fn sidecar_path_appends_the_marker_names() {
    let dir = vec!["home".to_string(), "pics".to_string()];
    assert_eq!(
        sidecar_path(&dir),
        vec![
            "home".to_string(),
            "pics".to_string(),
            ".crtag".to_string(),
            "CRTag.toml".to_string(),
        ]
    );
}
