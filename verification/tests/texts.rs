use snib_capture::text::{
    caption_monitor, caption_window, is_telling, search_text_of_window, text_or_empty, trim,
};

fn some(text: &str) -> Option<String> {
    Some(text.to_string())
}

#[test]
fn trimming_agrees_with_the_standard_library() {
    for text in [
        "", " ", "a", " a", "a ", "  a b\t", "\n\u{00a0}Dell\u{3000}", "\u{200b}x", "é ", " \t\r\n",
        "\u{2003}日本 語\u{2029}",
    ] {
        assert_eq!(trim(text), text.trim());
        assert_eq!(trim(trim(text)), trim(text));
    }
}

#[test]
fn unknown_models_tell_nothing() {
    assert!(!is_telling(""));
    assert!(!is_telling("unknown"));
    assert!(!is_telling("Unknown"));
    assert!(!is_telling("UNKNOWN"));
    assert!(is_telling("unknown 2"));
    assert!(is_telling("unKnowm"));
    assert!(is_telling("un\u{212a}nown"));
    assert!(is_telling("DELL U2720Q"));
}

#[test]
fn windows_are_captioned_by_title_then_application() {
    assert_eq!(caption_window(&some("Inbox"), &some("mail")), "Inbox");
    assert_eq!(caption_window(&some(""), &some("mail")), "mail");
    assert_eq!(caption_window(&None, &some("mail")), "mail");
    assert_eq!(caption_window(&some(""), &None), "(untitled)");
    assert_eq!(caption_window(&None, &None), "(untitled)");
    assert_eq!(caption_window(&None, &some("")), "");
}

#[test]
fn windows_are_searched_by_title_and_application() {
    assert_eq!(search_text_of_window(&some("Inbox"), &some("Mail")), "Inbox Mail");
    assert_eq!(search_text_of_window(&None, &some("Mail")), " Mail");
    assert_eq!(search_text_of_window(&some("Inbox"), &None), "Inbox ");
    assert_eq!(search_text_of_window(&None, &None), " ");
}

#[test]
fn monitors_are_captioned_by_name_and_model() {
    assert_eq!(caption_monitor(&"DP-1".to_string(), &some("U2720Q")), "DP-1 — U2720Q");
    assert_eq!(caption_monitor(&"DP-1".to_string(), &None), "DP-1");
}

#[test]
fn missing_texts_are_empty() {
    assert_eq!(text_or_empty(&some("x")), "x");
    assert_eq!(text_or_empty(&None), "");
}

#[test]
fn white_space_is_what_the_character_database_lists() {
    for n in 0..=0x10ffffu32 {
        if let Some(c) = char::from_u32(n) {
            let listed = matches!(
                n,
                0x09..=0x0d | 0x20 | 0x85 | 0xa0 | 0x1680 | 0x2000..=0x200a | 0x2028 | 0x2029
                    | 0x202f | 0x205f | 0x3000
            );
            let text = c.to_string();
            assert_eq!(trim(&text).is_empty(), listed, "{:x}", n);
        }
    }
}
