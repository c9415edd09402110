use note_engine::engine::{Engine, Reply};

fn engine_with_note() -> Engine {
    let mut e = Engine::new();
    let r = e.handle_text("#t\nTitle\nBody");
    assert_eq!(r, vec![Reply::NoteCreated]);
    e
}

#[test]
fn create_then_list_through_the_engine() {
    let mut e = engine_with_note();
    let r = e.handle_text("#t");
    assert_eq!(r.len(), 1);
    match &r[0] {
        Reply::SearchResults { message, keyboard } => {
            assert_eq!(message, "Список найденных заметок:\n`1)` Title\n");
            assert_eq!(keyboard, &vec![vec!["#t/Title".to_string()]]);
        },
        other => panic!("unexpected reply {:?}", other),
    }
}

#[test]
fn duplicate_create_reports_and_keeps_the_note() {
    let mut e = engine_with_note();
    let r = e.handle_text("#t\nTitle\nOther");
    assert_eq!(r, vec![Reply::DuplicateNote]);
    let shown = e.handle_action("#t/Title");
    match &shown[0] {
        Reply::ShowNote { body, .. } => assert_eq!(body, "Body"),
        other => panic!("unexpected reply {:?}", other),
    }
}

#[test]
fn invalid_characters_report_and_store_nothing() {
    let mut e = Engine::new();
    let r = e.handle_text("#a/b\nT\nB");
    assert_eq!(r, vec![Reply::InvalidName]);
    assert_eq!(e.handle_text("#a/b"), vec![Reply::NoNotesFound]);
}

#[test]
fn listing_an_empty_tag_finds_nothing() {
    let mut e = engine_with_note();
    let r = e.handle_text("#other");
    assert_eq!(r, vec![Reply::NoNotesFound]);
}

#[test]
fn view_token_shows_the_note_with_action_tokens() {
    let mut e = engine_with_note();
    let r = e.handle_action("#t/Title");
    assert_eq!(r.len(), 1);
    match &r[0] {
        Reply::ShowNote { tag, title, body, delete_token, edit_token } => {
            assert_eq!(tag, "#t");
            assert_eq!(title, "Title");
            assert_eq!(body, "Body");
            assert_eq!(delete_token, "d#t/Title");
            assert_eq!(edit_token, "w#t/Title");
        },
        other => panic!("unexpected reply {:?}", other),
    }
}

#[test]
fn view_of_a_missing_note_shows_nothing() {
    let mut e = Engine::new();
    assert!(e.handle_action("#none/x").is_empty());
}

#[test]
fn delete_token_removes_and_stays_idempotent() {
    let mut e = engine_with_note();
    let r = e.handle_action("d#t/Title");
    assert_eq!(r, vec![Reply::NoteDeleted]);
    assert!(e.handle_action("#t/Title").is_empty());
    let again = e.handle_action("d#t/Title");
    assert_eq!(again, vec![Reply::NoteDeleted]);
}

#[test]
fn edit_flow_overwrites_with_the_next_text() {
    let mut e = engine_with_note();
    let r = e.handle_action("w#t/Title");
    assert_eq!(r, vec![Reply::EditPrompt]);
    assert_eq!(
        e.pending_edit(),
        Some(("#t".to_string(), "Title".to_string()))
    );
    let r2 = e.handle_text("A fresh body");
    assert_eq!(r2, vec![Reply::NoteEdited]);
    assert_eq!(e.pending_edit(), None);
    match &e.handle_action("#t/Title")[0] {
        Reply::ShowNote { body, .. } => assert_eq!(body, "A fresh body"),
        other => panic!("unexpected reply {:?}", other),
    }
    let r3 = e.handle_text("an unrelated later message");
    assert!(r3.is_empty());
    match &e.handle_action("#t/Title")[0] {
        Reply::ShowNote { body, .. } => assert_eq!(body, "A fresh body"),
        other => panic!("unexpected reply {:?}", other),
    }
}

#[test]
fn edit_of_a_missing_note_sets_no_slot() {
    let mut e = Engine::new();
    assert!(e.handle_action("w#t/Title").is_empty());
    assert_eq!(e.pending_edit(), None);
}

#[test]
fn consumed_text_still_runs_through_the_classifier() {
    let mut e = engine_with_note();
    e.handle_text("#t2\nOther\nNote body");
    e.handle_action("w#t/Title");
    // The consuming text is itself a listing command: both effects happen.
    let r = e.handle_text("#t2");
    assert_eq!(r.len(), 2);
    assert_eq!(r[0], Reply::NoteEdited);
    assert!(matches!(r[1], Reply::SearchResults { .. }));
    match &e.handle_action("#t/Title")[0] {
        Reply::ShowNote { body, .. } => assert_eq!(body, "#t2"),
        other => panic!("unexpected reply {:?}", other),
    }
}

#[test]
fn scoped_content_search_through_the_engine() {
    let mut e = Engine::new();
    e.handle_text("#a\nwalk\nskyrim is great");
    e.handle_text("#b\nwalk\nmorrowind only");
    let hit = e.handle_text("#a\nФраза: sky");
    assert_eq!(hit.len(), 1);
    assert!(matches!(hit[0], Reply::SearchResults { .. }));
    let miss = e.handle_text("#b\nФраза: sky");
    assert_eq!(miss, vec![Reply::NoNotesFound]);
}

#[test]
fn title_search_through_the_engine_is_case_insensitive() {
    let mut e = Engine::new();
    e.handle_text("#games\nEvening Game\nx");
    let r = e.handle_text("Заголовок: EVEN");
    assert_eq!(r.len(), 1);
    match &r[0] {
        Reply::SearchResults { message, keyboard } => {
            assert_eq!(message, "Список найденных заметок:\n`1)` Evening Game\n");
            assert_eq!(keyboard, &vec![vec!["#games/Evening Game".to_string()]]);
        },
        other => panic!("unexpected reply {:?}", other),
    }
}

#[test]
fn malformed_commands_only_answer_an_error() {
    let mut e = Engine::new();
    assert_eq!(e.handle_text("no hash\nT\nB"), vec![Reply::MalformedCommand]);
    assert_eq!(e.handle_text("#a\nno marker here"), vec![Reply::MalformedCommand]);
    assert!(e.handle_action("#a").is_empty());
}

#[test]
fn plain_chatter_changes_nothing() {
    let mut e = engine_with_note();
    assert!(e.handle_text("hello there").is_empty());
    assert!(e.handle_text("a\nb\nc\nd").is_empty());
    match &e.handle_action("#t/Title")[0] {
        Reply::ShowNote { body, .. } => assert_eq!(body, "Body"),
        other => panic!("unexpected reply {:?}", other),
    }
}
