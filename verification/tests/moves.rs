use tabula::moves::{mv_action, mv_destination, mv_source, mv_target, MvAction};

#[test]
fn mv_source_strips_slash_and_normalizes() {
    assert_eq!(mv_source("docs/a.md/"), Ok("/docs/a.md".to_string()));
    assert!(mv_source("  ").is_err());
}

#[test]
fn mv_destination_rules() {
    let t = mv_target("/docs/a.md", "archive/").unwrap();
    assert_eq!(t.dst, "/archive");
    assert_eq!(t.inside, "/archive/a.md");
    assert!(t.into);
    assert_eq!(mv_destination(&t, true, true), "/archive/a.md");
    let t = mv_target("/docs/a.md", " archive ").unwrap();
    assert!(!t.into);
    assert_eq!(mv_destination(&t, true, false), "/archive");
    assert_eq!(mv_destination(&t, false, true), "/archive/a.md");
    assert_eq!(mv_destination(&t, false, false), "/archive");
}

#[test]
fn mv_actions_by_source_kind() {
    assert!(matches!(mv_action("/a/x", "/b/y", true), Ok(MvAction::MoveDocument)));
    assert!(matches!(mv_action("/a/x", "/a/y", false), Ok(MvAction::RenameDirectory)));
    match mv_action("/a/x", "/b/y", false) {
        Ok(MvAction::MoveDirectory { parent, name }) => {
            assert_eq!(parent, "/b");
            assert_eq!(name, "y");
        }
        _ => panic!("expected a directory move"),
    }
    assert_eq!(mv_action("/", "/b", false).err(), Some("path has no final name".to_string()));
}
