use crtag::TagError;
use crtag::registry::{Registry, init_registry_text, load_registry, store_registry};
use crtag::sidecar::{Sidecar, load_sidecar, store_sidecar};

#[test]
fn registry_survives_a_text_round_trip() {
    let mut reg = Registry::new_empty();
    reg.define(&"media".to_string());
    reg.define(&"image".to_string());
    reg.add_subtags(&"media".to_string(), &vec!["image".to_string()]).unwrap();
    let text = store_registry(&reg);
    let back = load_registry(&text).unwrap();
    assert_eq!(back.entries.len(), 2);
    assert_eq!(back.entries[0].0, "media");
    assert_eq!(back.entries[0].1.version, "1.0.0");
    assert_eq!(back.entries[0].1.subtags, vec!["image".to_string()]);
    assert!(back.entries[0].1.aliases.is_empty());
    assert_eq!(back.entries[1].0, "image");
    assert!(back.entries[1].1.subtags.is_empty());
}

#[test]
fn sidecar_survives_a_text_round_trip() {
    let mut sc = Sidecar::new_empty();
    let reg = {
        let mut r = Registry::new_empty();
        r.define(&"x".to_string());
        r.define(&"y".to_string());
        r
    };
    sc.apply_tags(&reg, &vec!["x".to_string(), "y".to_string()]).unwrap();
    let text = store_sidecar(&sc);
    let back = load_sidecar(&text).unwrap();
    assert_eq!(back.version, "1.0.0");
    assert_eq!(back.tags, vec!["x".to_string(), "y".to_string()]);
}

#[test]
fn empty_text_is_an_empty_registry() {
    let reg = load_registry("").unwrap();
    assert!(reg.entries.is_empty());
}

#[test]
fn empty_text_is_an_empty_sidecar() {
    let sc = load_sidecar("").unwrap();
    assert_eq!(sc.version, "");
    assert!(sc.tags.is_empty());
}

#[test]
fn load_reads_plain_registry_text() {
    let text = "alpha = { version = \"0.9\", aliases = [\"first\"], subtags = [\"beta\"] }\n";
    let reg = load_registry(text).unwrap();
    assert_eq!(reg.entries.len(), 1);
    assert_eq!(reg.entries[0].0, "alpha");
    assert_eq!(reg.entries[0].1.version, "0.9");
    assert_eq!(reg.entries[0].1.aliases, vec!["first".to_string()]);
    assert_eq!(reg.entries[0].1.subtags, vec!["beta".to_string()]);
}

#[test]
fn load_reads_plain_sidecar_text() {
    let text = "version = \"1.0.0\"\ntags = [\"x\", \"y\"]\n";
    let sc = load_sidecar(text).unwrap();
    assert_eq!(sc.version, "1.0.0");
    assert_eq!(sc.tags, vec!["x".to_string(), "y".to_string()]);
}

#[test]
fn registry_tolerates_missing_fields() {
    let reg = load_registry("bare = {}\n").unwrap();
    assert_eq!(reg.entries.len(), 1);
    assert_eq!(reg.entries[0].0, "bare");
    assert_eq!(reg.entries[0].1.version, "");
    assert!(reg.entries[0].1.subtags.is_empty());
}

#[test]
fn unparseable_text_is_a_decode_error() {
    assert!(matches!(load_registry("not == toml ]["), Err(TagError::Decode)));
    assert!(matches!(load_sidecar("not == toml ]["), Err(TagError::Decode)));
}

#[test]
fn wrong_shapes_are_schema_errors() {
    assert!(matches!(load_registry("a = 3\n"), Err(TagError::Schema)));
    assert!(matches!(load_registry("a = { subtags = 3 }\n"), Err(TagError::Schema)));
    assert!(matches!(load_sidecar("tags = 3\n"), Err(TagError::Schema)));
    assert!(matches!(load_sidecar("version = [1]\n"), Err(TagError::Schema)));
}

#[test]
fn the_tool_version_is_stable() {
    assert_eq!(crtag::tool_version(), "1.0.0");
}

#[test]
fn init_refuses_a_governed_target() {
    assert!(matches!(init_registry_text(true, false), Err(TagError::AlreadyExists)));
    assert!(matches!(init_registry_text(false, true), Err(TagError::AlreadyExists)));
    assert!(matches!(init_registry_text(true, true), Err(TagError::AlreadyExists)));
}

#[test]
fn init_writes_an_empty_registry() {
    let text = init_registry_text(false, false).unwrap();
    let reg = load_registry(&text).unwrap();
    assert!(reg.entries.is_empty());
}
