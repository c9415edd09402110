use note_engine::classify::{classify, Intent};

#[test]
fn three_lines_classify_as_create() {
    let r = classify("#games\nEvening Game\nZelda tonight");
    assert_eq!(
        r,
        vec![Intent::CreateNote {
            tag: "#games".to_string(),
            title: "Evening Game".to_string(),
            body: "Zelda tonight".to_string(),
        }]
    );
}

#[test]
fn lines_are_trimmed_before_classification() {
    let r = classify("  #t \n  Ti \n  B  ");
    assert_eq!(
        r,
        vec![Intent::CreateNote {
            tag: "#t".to_string(),
            title: "Ti".to_string(),
            body: "B".to_string(),
        }]
    );
}

#[test]
fn create_without_hash_is_malformed() {
    assert_eq!(classify("games\nT\nB"), vec![Intent::Malformed]);
}

#[test]
fn create_with_empty_line_is_malformed() {
    assert_eq!(classify("#g\n\nB"), vec![Intent::Malformed]);
    assert_eq!(classify("#g\nT\n "), vec![Intent::Malformed]);
}

#[test]
fn overlong_tag_and_title_are_malformed() {
    let tag = format!("#{}", "a".repeat(40));
    let title = "b".repeat(30);
    let text = format!("{}\n{}\nbody", tag, title);
    assert_eq!(classify(&text), vec![Intent::Malformed]);
}

#[test]
fn tag_and_title_length_counts_bytes() {
    // 32 Cyrillic letters are 64 bytes, the tag marker makes 65.
    let tag = format!("#{}", "ж".repeat(16));
    let title = "ж".repeat(16);
    let text = format!("{}\n{}\nbody", tag, title);
    assert_eq!(classify(&text), vec![Intent::Malformed]);
}

#[test]
fn overlong_body_is_malformed() {
    let text = format!("#t\nT\n{}", "x".repeat(4001));
    assert_eq!(classify(&text), vec![Intent::Malformed]);
    let ok = format!("#t\nT\n{}", "x".repeat(4000));
    assert!(matches!(classify(&ok)[0], Intent::CreateNote { .. }));
}

#[test]
fn one_hash_line_lists_the_tag() {
    assert_eq!(
        classify("#games"),
        vec![Intent::ListByTag { tag: "#games".to_string() }]
    );
}

#[test]
fn title_marker_starts_a_global_title_search() {
    assert_eq!(
        classify("Заголовок: изба"),
        vec![Intent::SearchTitle { tag: None, phrase: "изба".to_string() }]
    );
}

#[test]
fn lowercased_content_marker_is_recognized() {
    assert_eq!(
        classify("фраза: хлеб"),
        vec![Intent::SearchContent { tag: None, phrase: "хлеб".to_string() }]
    );
}

#[test]
fn two_lines_scope_the_search_by_tag() {
    assert_eq!(
        classify("#games\nЗаголовок: game"),
        vec![Intent::SearchTitle {
            tag: Some("#games".to_string()),
            phrase: "game".to_string(),
        }]
    );
}

#[test]
fn both_markers_fire_both_searches() {
    let r = classify("#a\nЗаголовок: x Фраза: y");
    assert_eq!(
        r,
        vec![
            Intent::SearchTitle {
                tag: Some("#a".to_string()),
                phrase: "x Фраза: y".to_string(),
            },
            Intent::SearchContent {
                tag: Some("#a".to_string()),
                phrase: "y".to_string(),
            },
        ]
    );
}

#[test]
fn two_lines_without_marker_are_malformed() {
    assert_eq!(classify("#a\njust text"), vec![Intent::Malformed]);
    assert_eq!(classify("a\nЗаголовок: x"), vec![Intent::Malformed]);
}

#[test]
fn other_line_counts_ask_nothing() {
    assert!(classify("a\nb\nc\nd").is_empty());
    assert!(classify("plain message").is_empty());
    assert!(classify("").is_empty());
}
