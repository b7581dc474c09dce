use codexswitch_cli::ui::{strip_ansi, style_dimmed};

#[test]
fn strip_ansi_sequences_removes_color_codes() {
    assert_eq!(strip_ansi("\u{1b}[31mtext\u{1b}[0m"), "text");
}

#[test]
fn strip_ansi_keeps_plain_text() {
    assert_eq!(strip_ansi("plain text"), "plain text");
    assert_eq!(strip_ansi(""), "");
}

#[test]
fn strip_ansi_drops_unterminated_sequence() {
    assert_eq!(strip_ansi("ok\u{1b}[31"), "ok");
}

#[test]
fn style_dimmed_without_color_is_identity() {
    assert_eq!(style_dimmed("[files: auth.json]", false), "[files: auth.json]");
}

#[test]
fn stripping_dimmed_text_gives_it_back() {
    let dimmed = style_dimmed("alpha", true);
    assert_eq!(strip_ansi(&dimmed), "alpha");
}
