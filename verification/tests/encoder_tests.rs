use note_engine::store::NoteStore;
use note_engine::encoder::create_message_and_keyboard;
use note_engine::text::{escape_markdown_special_chars, contains_invalid_chars};

fn notes_named(n: usize) -> NoteStore {
    let mut s = NoteStore::new();
    for i in 0..n {
        s.create("#t".to_string(), format!("note{}", i), "b".to_string()).unwrap();
    }
    s
}

#[test]
fn twelve_matches_paginate_as_five_five_two() {
    let s = notes_named(12);
    let all = s.list_tag(&"#t".to_string());
    let (_, grid) = create_message_and_keyboard(&all);
    assert_eq!(grid.len(), 3);
    assert_eq!(grid[0].len(), 5);
    assert_eq!(grid[1].len(), 5);
    assert_eq!(grid[2].len(), 2);
    let flat: Vec<String> = grid.into_iter().flatten().collect();
    for i in 0..12 {
        assert_eq!(flat[i], format!("#t/note{}", i));
    }
}

#[test]
fn five_matches_make_one_full_row() {
    let s = notes_named(5);
    let (_, grid) = create_message_and_keyboard(&s.list_all());
    assert_eq!(grid.len(), 1);
    assert_eq!(grid[0].len(), 5);
}

#[test]
fn six_matches_make_two_rows() {
    let s = notes_named(6);
    let (_, grid) = create_message_and_keyboard(&s.list_all());
    assert_eq!(grid.len(), 2);
    assert_eq!(grid[0].len(), 5);
    assert_eq!(grid[1].len(), 1);
}

#[test]
fn message_numbers_and_escapes_titles() {
    let mut s = NoteStore::new();
    s.create("#t".to_string(), "A.b".to_string(), "x".to_string()).unwrap();
    s.create("#t".to_string(), "plain".to_string(), "y".to_string()).unwrap();
    let (msg, _) = create_message_and_keyboard(&s.list_all());
    assert_eq!(
        msg,
        "Список найденных заметок:\n`1)` A\\.b\n`2)` plain\n"
    );
}

#[test]
fn escaping_prefixes_every_reserved_character() {
    assert_eq!(escape_markdown_special_chars("a_b.c"), "a\\_b\\.c");
    assert_eq!(
        escape_markdown_special_chars("\\`*_{}[]()<>#+-.!|"),
        "\\\\\\`\\*\\_\\{\\}\\[\\]\\(\\)\\<\\>\\#\\+\\-\\.\\!\\|"
    );
    assert_eq!(escape_markdown_special_chars("простой текст"), "простой текст");
}

#[test]
fn invalid_character_test_matches_the_reserved_set() {
    assert!(!contains_invalid_chars("Evening Game"));
    assert!(contains_invalid_chars("a/b"));
    assert!(contains_invalid_chars("a|b"));
    assert!(!contains_invalid_chars(""));
}
