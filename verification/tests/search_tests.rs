use note_engine::store::NoteStore;
use note_engine::search::{search_title, search_content};

fn sample() -> NoteStore {
    let mut s = NoteStore::new();
    s.create("#games".to_string(), "Evening Game".to_string(), "x".to_string())
        .unwrap();
    s.create("a".to_string(), "walkthrough".to_string(), "skyrim is great".to_string())
        .unwrap();
    s.create("b".to_string(), "walkthrough".to_string(), "morrowind only".to_string())
        .unwrap();
    s
}

#[test]
fn title_search_is_case_insensitive() {
    let s = sample();
    let found = search_title(&s, &None, "EVEN");
    assert_eq!(found.len(), 1);
    assert_eq!(found[0].title, "Evening Game");
}

#[test]
fn title_search_folds_stored_titles_too() {
    let s = sample();
    let found = search_title(&s, &None, "evening game");
    assert_eq!(found.len(), 1);
}

#[test]
fn content_search_scoped_by_tag() {
    let s = sample();
    let hit = search_content(&s, &Some("a".to_string()), "sky");
    assert_eq!(hit.len(), 1);
    assert_eq!(hit[0].tag, "a");
    let miss = search_content(&s, &Some("b".to_string()), "sky");
    assert!(miss.is_empty());
}

#[test]
fn content_search_unscoped_finds_across_tags() {
    let s = sample();
    let found = search_content(&s, &None, "SKYRIM");
    assert_eq!(found.len(), 1);
    assert_eq!(found[0].title, "walkthrough");
    assert_eq!(found[0].tag, "a");
}

#[test]
fn content_search_matches_any_body_line() {
    let mut s = NoteStore::new();
    s.create("#t".to_string(), "T".to_string(), "first line\nSkyrim here\nlast".to_string())
        .unwrap();
    let found = search_content(&s, &None, "skyrim");
    assert_eq!(found.len(), 1);
}

#[test]
fn empty_phrase_matches_every_note_in_scope() {
    let s = sample();
    assert_eq!(search_title(&s, &None, "").len(), 3);
    assert_eq!(search_content(&s, &Some("a".to_string()), "").len(), 1);
}

#[test]
fn search_in_absent_scope_is_empty_not_an_error() {
    let s = sample();
    assert!(search_title(&s, &Some("#nothing".to_string()), "e").is_empty());
}

#[test]
fn russian_titles_fold_too() {
    let mut s = NoteStore::new();
    s.create("#игры".to_string(), "Игра на вечер".to_string(), "Хочу поиграть в Скайрим".to_string())
        .unwrap();
    assert_eq!(search_title(&s, &None, "ИГРА").len(), 1);
    assert_eq!(search_content(&s, &None, "скайрим").len(), 1);
}
