use note_engine::token::{encode_token, decode_token, Action, Verb};

#[test]
fn view_token_round_trips() {
    let t = encode_token(Verb::View, "#games", "Evening Game");
    assert_eq!(t, "#games/Evening Game");
    assert_eq!(
        decode_token(&t),
        Some(Action {
            verb: Verb::View,
            tag: "#games".to_string(),
            title: "Evening Game".to_string(),
        })
    );
}

#[test]
fn delete_token_round_trips() {
    let t = encode_token(Verb::Delete, "#a", "b");
    assert_eq!(t, "d#a/b");
    assert_eq!(
        decode_token(&t),
        Some(Action { verb: Verb::Delete, tag: "#a".to_string(), title: "b".to_string() })
    );
}

#[test]
fn edit_token_round_trips() {
    let t = encode_token(Verb::Edit, "#a", "b");
    assert_eq!(t, "w#a/b");
    assert_eq!(
        decode_token(&t),
        Some(Action { verb: Verb::Edit, tag: "#a".to_string(), title: "b".to_string() })
    );
}

#[test]
fn tokens_without_separator_decode_to_nothing() {
    assert_eq!(decode_token(""), None);
    assert_eq!(decode_token("d"), None);
    assert_eq!(decode_token("wnoslash"), None);
    assert_eq!(decode_token("#noslash"), None);
}

#[test]
fn unprefixed_token_needs_a_tag_marker() {
    assert_eq!(decode_token("a/b"), None);
    assert!(decode_token("#a/b").is_some());
}

#[test]
fn split_happens_at_the_first_separator() {
    // A forged token with two separators: the title is everything after the
    // first one.
    assert_eq!(
        decode_token("d#a/b/c"),
        Some(Action { verb: Verb::Delete, tag: "#a".to_string(), title: "b/c".to_string() })
    );
}
