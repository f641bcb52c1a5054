use currawong::data::host::{vfs_path_for, vfs_path_of, vfs_paths_for};
use currawong::data::path::{VfsPath, VfsPathError};
use std::path::PathBuf;

fn ok(s: &str) -> VfsPath {
    VfsPath::new(s).expect("valid path")
}

fn err(s: &str) -> VfsPathError {
    VfsPath::new(s).expect_err("invalid path")
}

#[test]
fn accepts_simple_relative_paths() {
    assert_eq!(ok("foo").as_str(), "foo");
    assert_eq!(ok("foo/bar").as_str(), "foo/bar");
    assert_eq!(ok("kinds/oak_tree.ron").as_str(), "kinds/oak_tree.ron");
    assert_eq!(ok("a/b/c/d.png").as_str(), "a/b/c/d.png");
}

#[test]
fn rejects_empty() {
    assert_eq!(err(""), VfsPathError::Empty);
    assert_eq!(err("///"), VfsPathError::Absolute);
}

#[test]
fn rejects_absolute() {
    assert_eq!(err("/foo"), VfsPathError::Absolute);
    assert_eq!(err("/"), VfsPathError::Absolute);
    assert_eq!(err("/foo/bar"), VfsPathError::Absolute);
}

#[test]
fn rejects_backslash() {
    assert_eq!(err(r"foo\bar"), VfsPathError::Backslash);
    assert_eq!(err(r"C:\foo"), VfsPathError::Backslash);
    assert_eq!(err(r"\foo"), VfsPathError::Backslash);
}

#[test]
fn rejects_drive_letter() {
    assert_eq!(err("C:/foo"), VfsPathError::Colon);
    assert_eq!(err("c:foo"), VfsPathError::Colon);
    assert_eq!(err("foo:bar"), VfsPathError::Colon);
}

#[test]
fn rejects_nul_byte() {
    assert_eq!(err("foo\0bar"), VfsPathError::NulByte);
}

#[test]
fn rejects_parent_traversal() {
    assert_eq!(err(".."), VfsPathError::ParentTraversal);
    assert_eq!(err("../foo"), VfsPathError::ParentTraversal);
    assert_eq!(err("foo/.."), VfsPathError::ParentTraversal);
    assert_eq!(err("foo/../bar"), VfsPathError::ParentTraversal);
    assert_eq!(ok("..foo").as_str(), "..foo");
    assert_eq!(ok("foo..bar").as_str(), "foo..bar");
}

#[test]
fn rejects_current_dir_segment() {
    assert_eq!(err("."), VfsPathError::CurrentDir);
    assert_eq!(err("./foo"), VfsPathError::CurrentDir);
    assert_eq!(err("foo/."), VfsPathError::CurrentDir);
    assert_eq!(err("foo/./bar"), VfsPathError::CurrentDir);
    assert_eq!(ok("foo.ron").as_str(), "foo.ron");
    assert_eq!(ok("a.b.c").as_str(), "a.b.c");
}

#[test]
fn collapses_repeated_slashes() {
    assert_eq!(ok("foo//bar").as_str(), "foo/bar");
    assert_eq!(ok("foo///bar////baz").as_str(), "foo/bar/baz");
}

#[test]
fn strips_trailing_slash() {
    assert_eq!(ok("foo/").as_str(), "foo");
    assert_eq!(ok("foo/bar/").as_str(), "foo/bar");
    assert_eq!(ok("foo//").as_str(), "foo");
}

#[test]
fn normalisation_is_idempotent() {
    let once = ok("foo//bar/");
    let twice = VfsPath::new(once.as_str()).unwrap();
    assert_eq!(once, twice);
}

#[test]
fn extension_returns_final_dotted_suffix() {
    assert_eq!(ok("foo.ron").extension(), Some("ron"));
    assert_eq!(ok("kinds/oak.ron").extension(), Some("ron"));
    assert_eq!(ok("a.b.c").extension(), Some("c"));
    assert_eq!(ok("foo").extension(), None);
    assert_eq!(ok("kinds.v2/oak").extension(), None);
}

#[test]
fn is_within_matches_self_and_descendants() {
    let kinds = ok("kinds");
    assert!(ok("kinds").is_within(&kinds));
    assert!(ok("kinds/oak.ron").is_within(&kinds));
    assert!(ok("kinds/sub/oak.ron").is_within(&kinds));
    assert!(!ok("kindsx/oak.ron").is_within(&kinds));
    assert!(!ok("other/oak.ron").is_within(&kinds));
}

#[test]
fn within_is_transitive() {
    let (a, b, c) = (ok("a"), ok("a/b"), ok("a/b/c"));
    assert!(c.is_within(&b) && b.is_within(&a) && c.is_within(&a));
    assert!(!a.is_within(&b));
}

#[test]
fn faults_are_found_in_order() {
    // A backslash is found before a colon, and both before segments.
    assert_eq!(err("/a\\b"), VfsPathError::Absolute);
    assert_eq!(err("a:b\\c"), VfsPathError::Backslash);
    assert_eq!(err("a:../b"), VfsPathError::Colon);
}

#[test]
fn every_path_error_has_words() {
    let faults = [
        VfsPathError::Empty,
        VfsPathError::Absolute,
        VfsPathError::Backslash,
        VfsPathError::Colon,
        VfsPathError::NulByte,
        VfsPathError::ParentTraversal,
        VfsPathError::CurrentDir,
    ];
    for (i, a) in faults.iter().enumerate() {
        assert!(!a.message().is_empty());
        for b in &faults[i + 1..] {
            assert_ne!(a.message(), b.message());
        }
    }
}

#[test]
fn vfs_path_for_translates_relative_paths() {
    let root = PathBuf::from("/tmp/root");
    assert_eq!(
        vfs_path_for(&root, &PathBuf::from("/tmp/root/a/b.ron")).map(|p| p.as_str().to_owned()),
        Some("a/b.ron".to_owned()),
    );
    assert!(vfs_path_for(&root, &PathBuf::from("/tmp/other/c.ron")).is_none());
    assert!(vfs_path_for(&root, &root).is_none());
}

#[test]
fn host_separators_become_slashes() {
    assert_eq!(vfs_path_of("a\\b.ron", '\\').unwrap().as_str(), "a/b.ron");
    assert!(vfs_path_of("a\\b.ron", '/').is_none());
    assert!(vfs_path_of("a:b", '/').is_none());
}

#[test]
fn host_paths_outside_are_left_out() {
    let root = PathBuf::from("/srv/assets");
    let hosts = vec![
        PathBuf::from("/srv/assets/z.png"),
        PathBuf::from("/srv/other.png"),
        PathBuf::from("/srv/assets/a:b"),
        PathBuf::from("/srv/assets/sub/a.ron"),
    ];
    let paths = vfs_paths_for(&root, &hosts);
    let texts: Vec<&str> = paths.iter().map(|p| p.as_str()).collect();
    assert_eq!(texts, vec!["z.png", "sub/a.ron"]);
}
