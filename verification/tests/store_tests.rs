use note_engine::store::{NoteStore, NoteError};

#[test]
fn create_then_list_returns_note_once() {
    let mut s = NoteStore::new();
    s.create("#games".to_string(), "Evening Game".to_string(), "x".to_string())
        .unwrap();
    let listed = s.list_tag(&"#games".to_string());
    assert_eq!(listed.len(), 1);
    assert_eq!(listed[0].tag, "#games");
    assert_eq!(listed[0].title, "Evening Game");
    assert_eq!(listed[0].body, "x");
}

#[test]
fn create_then_list_under_other_notes() {
    let mut s = NoteStore::new();
    s.create("#a".to_string(), "one".to_string(), "1".to_string()).unwrap();
    s.create("#b".to_string(), "two".to_string(), "2".to_string()).unwrap();
    s.create("#a".to_string(), "three".to_string(), "3".to_string()).unwrap();
    let listed = s.list_tag(&"#a".to_string());
    assert_eq!(listed.len(), 2);
    assert_eq!(listed[0].title, "one");
    assert_eq!(listed[1].title, "three");
}

#[test]
fn duplicate_create_fails_and_keeps_body() {
    let mut s = NoteStore::new();
    s.create("#t".to_string(), "T".to_string(), "original".to_string()).unwrap();
    let r = s.create("#t".to_string(), "T".to_string(), "other".to_string());
    assert_eq!(r, Err(NoteError::DuplicateNoteError));
    let body = s.read(&"#t".to_string(), &"T".to_string()).unwrap();
    assert_eq!(body, "original");
}

#[test]
fn delete_nonexistent_is_noop() {
    let mut s = NoteStore::new();
    s.delete(&"#no".to_string(), &"where".to_string());
    assert!(s.list_all().is_empty());
    s.create("#t".to_string(), "T".to_string(), "b".to_string()).unwrap();
    s.delete(&"#t".to_string(), &"T".to_string());
    s.delete(&"#t".to_string(), &"T".to_string());
    assert!(s.list_all().is_empty());
}

#[test]
fn invalid_tag_rejected_before_mutation() {
    let mut s = NoteStore::new();
    let r = s.create("a/b".to_string(), "T".to_string(), "b".to_string());
    assert_eq!(r, Err(NoteError::ValidationError));
    assert!(s.list_all().is_empty());
}

#[test]
fn every_reserved_character_is_rejected() {
    for c in ['\\', '/', ':', '*', '?', '"', '<', '>', '|'] {
        let mut s = NoteStore::new();
        let tag = format!("#a{}b", c);
        let r = s.create(tag, "T".to_string(), "b".to_string());
        assert_eq!(r, Err(NoteError::ValidationError));
        let r2 = NoteStore::new().create("#ok".to_string(), format!("T{}", c), "b".to_string());
        assert_eq!(r2, Err(NoteError::ValidationError));
    }
}

#[test]
fn read_missing_is_not_found() {
    let s = NoteStore::new();
    assert_eq!(
        s.read(&"#t".to_string(), &"T".to_string()),
        Err(NoteError::NotFoundError)
    );
}

#[test]
fn overwrite_replaces_and_recreates() {
    let mut s = NoteStore::new();
    s.create("#t".to_string(), "T".to_string(), "old".to_string()).unwrap();
    s.overwrite("#t".to_string(), "T".to_string(), "new".to_string());
    assert_eq!(s.read(&"#t".to_string(), &"T".to_string()).unwrap(), "new");
    assert_eq!(s.list_all().len(), 1);
    s.delete(&"#t".to_string(), &"T".to_string());
    s.overwrite("#t".to_string(), "T".to_string(), "back".to_string());
    assert_eq!(s.read(&"#t".to_string(), &"T".to_string()).unwrap(), "back");
}
