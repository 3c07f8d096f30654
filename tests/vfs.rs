use rust_server::buffer::Buffer;
use rust_server::dispatch::{handle_doc_event, DocEvent};
use rust_server::vfs::{Change, File, Vfs, VfsError};

fn file(name: &str, text: &str, version: i32) -> File {
    File::new(
        name.to_string(),
        "rust".to_string(),
        version,
        Buffer::from_text(text),
    )
}

fn change(start: (usize, usize), end: (usize, usize), text: &str) -> Change {
    Change {
        start,
        end,
        text: text.to_string(),
    }
}

#[test]
fn file_accessors() {
    let f = file("file:///a.rs", "x\ny", 3);
    assert_eq!(f.version(), 3);
    assert_eq!(f.name(), "file:///a.rs");
    assert_eq!(f.language(), "rust");
    assert_eq!(f.content_ref().lines(), vec!["x\n", "y"]);
}

#[test]
fn get_unknown_is_not_found() {
    let vfs = Vfs::new();
    assert!(matches!(vfs.get("file:///none"), Err(VfsError::NotFound)));
    assert_eq!(vfs.all_files().len(), 0);
}

#[test]
fn add_replaces_same_identifier() {
    let mut vfs = Vfs::new();
    vfs.add(file("a", "one", 1));
    vfs.add(file("b", "two", 1));
    vfs.add(file("a", "three", 5));
    assert_eq!(vfs.all_files().len(), 2);
    let a = vfs.get("a").unwrap();
    assert_eq!(a.version(), 5);
    assert_eq!(a.content_ref().contents(), "three");
    assert_eq!(vfs.get("b").unwrap().content_ref().contents(), "two");
}

#[test]
fn update_sets_version_and_applies_edits_in_order() {
    let mut vfs = Vfs::new();
    vfs.add(file("a", "hello", 1));
    let changes = vec![change((0, 5), (0, 5), "\nworld"), change((1, 0), (1, 1), "W")];
    assert_eq!(vfs.update("a", 2, &changes), Ok(()));
    let a = vfs.get("a").unwrap();
    assert_eq!(a.version(), 2);
    assert_eq!(a.content_ref().lines(), vec!["hello\n", "World"]);
}

#[test]
fn update_unknown_is_not_found() {
    let mut vfs = Vfs::new();
    assert_eq!(vfs.update("a", 2, &vec![]), Err(VfsError::NotFound));
}

#[test]
fn update_stops_at_invalid_range() {
    let mut vfs = Vfs::new();
    vfs.add(file("a", "abc", 1));
    let changes = vec![change((0, 0), (0, 1), "X"), change((3, 0), (3, 0), "Y"), change((0, 0), (0, 0), "Z")];
    assert_eq!(vfs.update("a", 4, &changes), Err(VfsError::InvalidRange));
    let a = vfs.get("a").unwrap();
    assert_eq!(a.version(), 4);
    assert_eq!(a.content_ref().contents(), "Xbc");
}

#[test]
fn remove_closes_document() {
    let mut vfs = Vfs::new();
    vfs.add(file("a", "abc", 1));
    vfs.add(file("b", "def", 1));
    assert_eq!(vfs.remove("a"), Ok(()));
    assert!(matches!(vfs.get("a"), Err(VfsError::NotFound)));
    assert!(vfs.get("b").is_ok());
    assert_eq!(vfs.remove("a"), Err(VfsError::NotFound));
}

#[test]
fn all_files_mut_sees_every_document() {
    let mut vfs = Vfs::new();
    vfs.add(file("a", "1", 1));
    vfs.add(file("b", "2", 2));
    let files = vfs.all_files_mut();
    assert_eq!(files.len(), 2);
    files.swap(0, 1);
    assert_eq!(vfs.all_files()[0].name(), "b");
}

#[test]
fn open_change_close_lifecycle() {
    let mut vfs = Vfs::new();
    let opened = handle_doc_event(
        &mut vfs,
        DocEvent::Open {
            uri: "file:///m.rs".to_string(),
            language: "rust".to_string(),
            version: 1,
            text: "fn main() {}\n".to_string(),
        },
    );
    assert!(matches!(opened, Ok(None)));
    let changed = handle_doc_event(
        &mut vfs,
        DocEvent::Change {
            uri: "file:///m.rs".to_string(),
            version: 2,
            changes: vec![change((0, 11), (0, 11), "\n    hello();\n")],
        },
    )
    .unwrap()
    .unwrap();
    assert_eq!(changed.uri, "file:///m.rs");
    assert_eq!(changed.version, 2);
    assert_eq!(changed.text, "fn main() {\n    hello();\n}\n");
    assert_eq!(vfs.get("file:///m.rs").unwrap().version(), 2);
    let closed = handle_doc_event(
        &mut vfs,
        DocEvent::Close {
            uri: "file:///m.rs".to_string(),
        },
    );
    assert!(matches!(closed, Ok(None)));
    assert!(matches!(vfs.get("file:///m.rs"), Err(VfsError::NotFound)));
}

#[test]
fn change_of_unknown_document_is_not_found() {
    let mut vfs = Vfs::new();
    let r = handle_doc_event(
        &mut vfs,
        DocEvent::Change {
            uri: "x".to_string(),
            version: 2,
            changes: vec![],
        },
    );
    assert!(matches!(r, Err(VfsError::NotFound)));
    let r = handle_doc_event(&mut vfs, DocEvent::Close { uri: "x".to_string() });
    assert!(matches!(r, Err(VfsError::NotFound)));
}

#[test]
fn change_with_bad_range_asks_no_validation() {
    let mut vfs = Vfs::new();
    vfs.add(file("a", "abc", 1));
    let r = handle_doc_event(
        &mut vfs,
        DocEvent::Change {
            uri: "a".to_string(),
            version: 2,
            changes: vec![change((0, 9), (0, 9), "x")],
        },
    );
    assert!(matches!(r, Err(VfsError::InvalidRange)));
}
