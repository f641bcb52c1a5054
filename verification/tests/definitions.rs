use currawong::data::definitions::{find_id, DefError, Definitions, IdField, RonField};
use currawong::data::kind_id::{KindId, KindIdError};
use currawong::data::memory_source::MemorySource;
use currawong::data::path::VfsPath;
use currawong::data::source::{io_message, listing_of_walk, AssetError, AssetSource};
use currawong::data::vfs::Vfs;
use std::sync::Mutex;

fn p(s: &str) -> VfsPath {
    VfsPath::new(s).unwrap()
}

fn vfs_with(files: &[(&str, &str)]) -> Vfs<MemorySource> {
    let mut src = MemorySource::new();
    for (path, body) in files {
        src.insert(p(path), body.as_bytes().to_vec());
    }
    let mut vfs = Vfs::new();
    vfs.mount(src);
    vfs
}

#[test]
fn kind_id_happy() {
    let id = KindId::new("currawong:oak_tree").unwrap();
    assert_eq!(id.namespace(), "currawong");
    assert_eq!(id.name(), "oak_tree");
    assert_eq!(id.as_str(), "currawong:oak_tree");
}

#[test]
fn kind_id_rejects() {
    assert_eq!(
        KindId::new("no_separator").unwrap_err(),
        KindIdError::MissingSeparator
    );
    assert_eq!(
        KindId::new("a:b:c").unwrap_err(),
        KindIdError::MultipleSeparators
    );
    assert_eq!(
        KindId::new(":name").unwrap_err(),
        KindIdError::EmptyNamespace
    );
    assert_eq!(KindId::new("ns:").unwrap_err(), KindIdError::EmptyName);
    assert_eq!(
        KindId::new("1ns:name").unwrap_err(),
        KindIdError::InvalidNamespace
    );
    assert_eq!(
        KindId::new("NS:name").unwrap_err(),
        KindIdError::InvalidNamespace
    );
    assert_eq!(
        KindId::new("ns:1name").unwrap_err(),
        KindIdError::InvalidName
    );
    assert_eq!(
        KindId::new("ns:Name").unwrap_err(),
        KindIdError::InvalidName
    );
    assert_eq!(
        KindId::new("ns:name-with-dash").unwrap_err(),
        KindIdError::InvalidName
    );
}

#[test]
fn kind_id_errors_have_words() {
    assert_eq!(
        KindIdError::MissingSeparator.message(),
        "kind id is missing `:` separator"
    );
    assert_eq!(
        KindIdError::InvalidName.message(),
        "kind id name must match [a-z][a-z0-9_]*"
    );
}

#[test]
fn loads_one_kind() {
    let vfs = vfs_with(&[(
        "kinds/oak.ron",
        r#"(id: "currawong:oak_tree", max_height: 12.0)"#,
    )]);
    let defs = match Definitions::load(&vfs, &p("kinds")) {
        Ok(defs) => defs,
        Err(e) => panic!("{}", e.message()),
    };
    assert_eq!(defs.len(), 1);
    let id = KindId::new("currawong:oak_tree").unwrap();
    let def = defs.get(&id).expect("oak registered");
    assert_eq!(def.id, id);
    assert_eq!(def.source.as_str(), "kinds/oak.ron");
}

fn load(files: &[(&str, &str)]) -> Result<Definitions, DefError> {
    Definitions::load(&vfs_with(files), &p("kinds"))
}

fn loaded(files: &[(&str, &str)]) -> Definitions {
    match load(files) {
        Ok(defs) => defs,
        Err(e) => panic!("{}", e.message()),
    }
}

#[test]
fn ignores_files_outside_prefix() {
    let defs = loaded(&[
        ("kinds/oak.ron", r#"(id: "currawong:oak_tree")"#),
        (
            "other/skip.ron",
            r#"(id: "currawong:should_not_be_loaded")"#,
        ),
    ]);
    assert_eq!(defs.len(), 1);
    assert!(defs
        .get(&KindId::new("currawong:oak_tree").unwrap())
        .is_some());
    assert!(defs
        .get(&KindId::new("currawong:should_not_be_loaded").unwrap())
        .is_none());
}

#[test]
fn ignores_non_ron_files() {
    let defs = loaded(&[
        ("kinds/oak.ron", r#"(id: "currawong:oak_tree")"#),
        ("kinds/readme.txt", "this should not be parsed as RON"),
    ]);
    assert_eq!(defs.len(), 1);
}

#[test]
fn loads_multiple_kinds() {
    let defs = loaded(&[
        ("kinds/oak.ron", r#"(id: "currawong:oak_tree")"#),
        ("kinds/birch.ron", r#"(id: "currawong:birch_tree")"#),
        ("kinds/sub/pine.ron", r#"(id: "currawong:pine_tree")"#),
    ]);
    assert_eq!(defs.len(), 3);
    let mut ids: Vec<&str> = defs.iter().into_iter().map(|(id, _)| id.as_str()).collect();
    ids.sort();
    assert_eq!(
        ids,
        vec![
            "currawong:birch_tree",
            "currawong:oak_tree",
            "currawong:pine_tree"
        ]
    );
}

#[test]
fn malformed_ron_surfaces_parse_error() {
    match load(&[("kinds/oak.ron", r#"(id: "currawong:oak_tree""#)]) {
        Err(e) => {
            let message = e.message();
            match e {
                DefError::Parse { path, error } => {
                    assert_eq!(path.as_str(), "kinds/oak.ron");
                    assert!(message.contains("kinds/oak.ron"));
                    assert!(message.contains(&error.to_string()));
                }
                _ => panic!("expected Parse error"),
            }
        }
        _ => panic!("expected Parse error"),
    }
}

#[test]
fn missing_id_surfaces_clear_error() {
    match load(&[("kinds/oak.ron", r#"(max_height: 12.0)"#)]) {
        Err(DefError::MissingId { path }) => assert_eq!(path.as_str(), "kinds/oak.ron"),
        _ => panic!("expected MissingId"),
    }
}

#[test]
fn invalid_id_surfaces_clear_error() {
    match load(&[("kinds/oak.ron", r#"(id: "no_colon_here")"#)]) {
        Err(DefError::InvalidId { path, error }) => {
            assert_eq!(path.as_str(), "kinds/oak.ron");
            assert_eq!(error, KindIdError::MissingSeparator);
        }
        _ => panic!("expected InvalidId"),
    }
}

#[test]
fn duplicate_id_surfaces_clear_error() {
    match load(&[
        ("kinds/a.ron", r#"(id: "currawong:oak_tree")"#),
        ("kinds/b.ron", r#"(id: "currawong:oak_tree")"#),
    ]) {
        Err(DefError::Duplicate { id, first, second }) => {
            assert_eq!(id.as_str(), "currawong:oak_tree");
            assert_ne!(first, second);
        }
        _ => panic!("expected Duplicate"),
    }
}

#[test]
fn id_not_a_string_surfaces_clear_error() {
    match load(&[("kinds/oak.ron", r#"(id: 42)"#)]) {
        Err(DefError::IdNotAString { path }) => assert_eq!(path.as_str(), "kinds/oak.ron"),
        _ => panic!("expected IdNotAString"),
    }
}

#[test]
fn document_that_is_no_struct_is_rejected() {
    match load(&[("kinds/oak.ron", r#"["currawong:oak_tree"]"#)]) {
        Err(DefError::NotAStruct { path }) => assert_eq!(path.as_str(), "kinds/oak.ron"),
        _ => panic!("expected NotAStruct"),
    }
}

#[test]
fn file_that_is_no_text_is_rejected() {
    let mut src = MemorySource::new();
    src.insert(p("kinds/oak.ron"), vec![0xff, 0xfe]);
    let mut vfs = Vfs::new();
    vfs.mount(src);
    match Definitions::load(&vfs, &p("kinds")) {
        Err(DefError::NotUtf8 { path }) => assert_eq!(path.as_str(), "kinds/oak.ron"),
        _ => panic!("expected NotUtf8"),
    }
}

#[test]
fn the_id_is_found_among_the_fields() {
    let fields = vec![
        RonField {
            name: Some("name".to_owned()),
            text: Some("x".to_owned()),
        },
        RonField {
            name: Some("id".to_owned()),
            text: Some("a:b".to_owned()),
        },
    ];
    match find_id(&fields) {
        IdField::Text(text) => assert_eq!(text, "a:b"),
        _ => panic!("expected the id"),
    }
}

/// A source whose reads and listings fail with an error of the system.
struct Broken;

impl AssetSource for Broken {
    fn read(&self, _: &VfsPath) -> Result<Vec<u8>, AssetError> {
        Err(AssetError::from(std::io::Error::from(
            std::io::ErrorKind::PermissionDenied,
        )))
    }
    fn list(&self) -> Result<Vec<VfsPath>, AssetError> {
        Err(AssetError::from(std::io::Error::from(
            std::io::ErrorKind::PermissionDenied,
        )))
    }
}

/// A source that lists a file which it cannot read.
struct Teasing;

impl AssetSource for Teasing {
    fn read(&self, _: &VfsPath) -> Result<Vec<u8>, AssetError> {
        Err(AssetError::NotFound)
    }
    fn list(&self) -> Result<Vec<VfsPath>, AssetError> {
        Ok(vec![p("kinds/ghost.ron")])
    }
}

#[test]
fn listing_errors_stop_the_load() {
    let mut vfs = Vfs::new();
    vfs.mount(Broken);
    match Definitions::load(&vfs, &p("kinds")) {
        Err(DefError::Listing(AssetError::Io(_))) => {}
        _ => panic!("expected Listing"),
    }
}

#[test]
fn read_errors_name_the_file() {
    let mut vfs = Vfs::new();
    vfs.mount(Teasing);
    match Definitions::load(&vfs, &p("kinds")) {
        Err(e) => {
            assert!(matches!(&e, DefError::Read { error: AssetError::NotFound, .. }));
            assert!(e.message().contains("kinds/ghost.ron"));
            assert!(e.message().contains("asset not found"));
        }
        _ => panic!("expected Read"),
    }
}

#[test]
fn empty_vfs_returns_not_found() {
    let vfs: Vfs<MemorySource> = Vfs::new();
    match vfs.read(&p("foo")) {
        Err(AssetError::NotFound) => {}
        other => panic!("expected NotFound, got {other:?}"),
    }
}

#[test]
fn top_layer_overrides_base() {
    let mut vfs = Vfs::new();
    vfs.mount(MemorySource::new().with("config.ron", b"base".to_vec()));
    vfs.mount(MemorySource::new().with("config.ron", b"override".to_vec()));

    let bytes = vfs.read(&p("config.ron")).unwrap();
    assert_eq!(bytes, b"override");
}

#[test]
fn falls_through_when_top_silent() {
    let mut vfs = Vfs::new();
    vfs.mount(MemorySource::new().with("only_in_base.ron", b"base".to_vec()));
    vfs.mount(MemorySource::new().with("other.ron", b"override".to_vec()));

    let bytes = vfs.read(&p("only_in_base.ron")).unwrap();
    assert_eq!(bytes, b"base");
}

#[test]
fn listing_unions_and_dedupes() {
    let mut vfs = Vfs::new();
    vfs.mount(
        MemorySource::new()
            .with("shared.ron", b"".to_vec())
            .with("only_in_base.ron", b"".to_vec()),
    );
    vfs.mount(
        MemorySource::new()
            .with("shared.ron", b"".to_vec())
            .with("only_in_override.ron", b"".to_vec()),
    );

    let listing: Vec<String> = vfs
        .list()
        .unwrap()
        .into_iter()
        .map(|p| p.as_str().to_owned())
        .collect();
    assert_eq!(
        listing,
        vec!["only_in_base.ron", "only_in_override.ron", "shared.ron",]
    );
}

#[test]
fn drain_changes_empty_without_watching_layers() {
    let mut vfs = Vfs::new();
    vfs.mount(MemorySource::new().with("foo", b"".to_vec()));
    assert!(vfs.drain_changes().is_empty());
}

struct Parked(Mutex<Vec<VfsPath>>);

impl AssetSource for Parked {
    fn read(&self, _: &VfsPath) -> Result<Vec<u8>, AssetError> {
        Err(AssetError::NotFound)
    }
    fn list(&self) -> Result<Vec<VfsPath>, AssetError> {
        Ok(Vec::new())
    }
    fn drain_changes(&self) -> Vec<VfsPath> {
        std::mem::take(&mut *self.0.lock().unwrap())
    }
}

#[test]
fn drain_changes_unions_dedupes_and_sorts() {
    let mut vfs = Vfs::new();
    vfs.mount(Parked(Mutex::new(vec![p("a"), p("shared")])));
    vfs.mount(Parked(Mutex::new(vec![p("shared"), p("b")])));
    let changes: Vec<String> = vfs
        .drain_changes()
        .into_iter()
        .map(|p| p.as_str().to_owned())
        .collect();
    assert_eq!(changes, vec!["a", "b", "shared"]);
    assert!(vfs.drain_changes().is_empty());
}

#[test]
fn three_layer_precedence() {
    let mut vfs = Vfs::new();
    vfs.mount(
        MemorySource::new()
            .with("a", b"base-a".to_vec())
            .with("b", b"base-b".to_vec())
            .with("c", b"base-c".to_vec()),
    );
    vfs.mount(
        MemorySource::new()
            .with("b", b"mid-b".to_vec())
            .with("c", b"mid-c".to_vec()),
    );
    vfs.mount(MemorySource::new().with("c", b"top-c".to_vec()));

    assert_eq!(vfs.read(&p("a")).unwrap(), b"base-a");
    assert_eq!(vfs.read(&p("b")).unwrap(), b"mid-b");
    assert_eq!(vfs.read(&p("c")).unwrap(), b"top-c");
}

#[test]
fn layers_of_different_kinds_can_be_mounted() {
    let mut vfs: Vfs<Box<dyn AssetSource>> = Vfs::new();
    vfs.mount(Box::new(MemorySource::new().with("a", b"1".to_vec())));
    vfs.mount(Box::new(Parked(Mutex::new(vec![p("a")]))));
    assert_eq!(vfs.layer_count(), 2);
    assert_eq!(vfs.read(&p("a")).unwrap(), b"1");
    assert_eq!(vfs.drain_changes().len(), 1);
}

#[test]
fn other_errors_are_not_hidden_by_lower_layers() {
    let mut vfs: Vfs<Box<dyn AssetSource>> = Vfs::new();
    vfs.mount(Box::new(MemorySource::new().with("a", b"1".to_vec())));
    vfs.mount(Box::new(Broken));
    match vfs.read(&p("a")) {
        Err(AssetError::Io(e)) => assert_eq!(e.kind(), std::io::ErrorKind::PermissionDenied),
        other => panic!("expected Io, got {other:?}"),
    }
}

#[test]
fn missing_files_are_not_found_and_other_errors_stay() {
    let gone = std::io::Error::from(std::io::ErrorKind::NotFound);
    assert!(matches!(AssetError::from(gone), AssetError::NotFound));
    let denied = std::io::Error::from(std::io::ErrorKind::PermissionDenied);
    let error = AssetError::from(denied);
    assert!(matches!(&error, AssetError::Io(_)));
    assert!(error.message().starts_with("I/O error: "));
    assert!(error.message().len() > "I/O error: ".len());
}

#[test]
fn missing_root_lists_empty_and_others_fail() {
    let gone = std::io::Error::from(std::io::ErrorKind::NotFound);
    assert!(listing_of_walk(Err(gone)).unwrap().is_empty());
    let denied = std::io::Error::from(std::io::ErrorKind::PermissionDenied);
    assert!(listing_of_walk(Err(denied)).is_err());
    assert_eq!(listing_of_walk(Ok(vec![p("a")])).unwrap().len(), 1);
}

#[test]
fn inserting_hands_back_what_was_there() {
    let mut source = MemorySource::new();
    assert_eq!(source.insert(p("a"), b"1".to_vec()), None);
    assert_eq!(source.insert(p("a"), b"2".to_vec()), Some(b"1".to_vec()));
    assert_eq!(source.read(&p("a")).unwrap(), b"2");
}

#[test]
fn kinds_come_in_the_order_of_their_files() {
    let vfs = vfs_with(&[
        ("kinds/c.ron", "(id: \"w:first\")"),
        ("kinds/a.ron", "(id: \"w:second\")"),
        ("kinds/b.ron", "(id: \"w:third\")"),
    ]);
    let sources = |vfs: &Vfs<MemorySource>| -> Vec<String> {
        match Definitions::load(vfs, &p("kinds")) {
            Ok(defs) => defs
                .iter()
                .into_iter()
                .map(|(_, def)| def.source.as_str().to_owned())
                .collect(),
            Err(e) => panic!("{}", e.message()),
        }
    };
    let first = sources(&vfs);
    assert_eq!(first, vec!["kinds/a.ron", "kinds/b.ron", "kinds/c.ron"]);
    assert_eq!(sources(&vfs), first);
}

#[test]
fn io_messages_hold_their_detail() {
    assert_eq!(io_message("disk on fire"), "I/O error: disk on fire");
    let error = AssetError::Io(std::io::Error::other("disk on fire"));
    assert_eq!(error.message(), "I/O error: disk on fire");
}
