use patchlight::highlighter::{
    ansi_for_class, class_names, highlight_quoting_marks, paint_line, render_events,
    HighlightError, HighlightEvent, HighlighterEngine,
};

const BLUE: &str = "\x1b[34m";
const RESET: &str = "\x1b[0m";

#[test]
fn each_class_has_its_colour() {
    assert_eq!(ansi_for_class(0), "\x1b[1;34m");
    assert_eq!(ansi_for_class(1), "\x1b[1;36m");
    assert_eq!(ansi_for_class(2), "\x1b[0;32m");
    assert_eq!(ansi_for_class(3), "\x1b[1;35m");
    assert_eq!(ansi_for_class(4), "\x1b[0;36m");
    assert_eq!(ansi_for_class(5), "\x1b[0;90m");
    assert_eq!(ansi_for_class(6), "\x1b[1;33m");
    assert_eq!(ansi_for_class(7), "\x1b[1;31m");
    assert_eq!(ansi_for_class(8), "\x1b[0m");
    assert_eq!(ansi_for_class(9), "\x1b[0m");
    assert_eq!(ansi_for_class(usize::MAX), "\x1b[0m");
}

#[test]
fn class_names_stand_at_their_class() {
    assert_eq!(
        class_names(),
        vec![
            "function", "type", "string", "keyword", "number", "comment", "constant", "operator",
            "variable"
        ]
    );
}

#[test]
fn render_events_wraps_pieces_in_colours() {
    let code = "int x;";
    let events = [
        HighlightEvent::HighlightStart(1),
        HighlightEvent::Source { start: 0, end: 3 },
        HighlightEvent::HighlightEnd,
        HighlightEvent::Source { start: 3, end: 6 },
    ];
    assert_eq!(render_events(code, &events), Ok(format!("\x1b[1;36mint{RESET} x;")));
}

#[test]
fn render_events_of_nothing_is_empty() {
    assert_eq!(render_events("int x;", &[]), Ok(String::new()));
}

#[test]
fn render_events_refuses_a_range_past_the_end() {
    let events = [HighlightEvent::Source { start: 0, end: 7 }];
    assert_eq!(render_events("int x;", &events), Err(HighlightError::Range));
}

#[test]
fn render_events_refuses_a_reversed_range() {
    let events = [HighlightEvent::Source { start: 4, end: 2 }];
    assert_eq!(render_events("int x;", &events), Err(HighlightError::Range));
}

#[test]
fn render_events_refuses_a_range_inside_a_character() {
    let code = "\u{e9}t\u{e9}";
    assert_eq!(
        render_events(code, &[HighlightEvent::Source { start: 0, end: 2 }]),
        Ok("\u{e9}".to_string())
    );
    assert_eq!(
        render_events(code, &[HighlightEvent::Source { start: 1, end: 2 }]),
        Err(HighlightError::Range)
    );
    assert_eq!(
        render_events(code, &[HighlightEvent::Source { start: 0, end: 4 }]),
        Err(HighlightError::Range)
    );
}

#[test]
fn paint_line_paints_each_leading_marker() {
    assert_eq!(paint_line("plain text"), "plain text");
    assert_eq!(paint_line("> quoted"), format!("{BLUE}>{RESET} quoted"));
    assert_eq!(
        paint_line(" >\t> a > b"),
        format!(" {BLUE}>{RESET}\t{BLUE}>{RESET} a > b")
    );
    assert_eq!(paint_line(">>"), format!("{BLUE}>{RESET}{BLUE}>{RESET}"));
    assert_eq!(paint_line(""), "");
    assert_eq!(paint_line("->field"), "->field");
}

#[test]
fn quoting_marks_keep_the_text_and_its_line_ends() {
    assert_eq!(highlight_quoting_marks(""), "");
    assert_eq!(highlight_quoting_marks("a\nb"), "a\nb");
    assert_eq!(highlight_quoting_marks("a\r\nb\n"), "a\r\nb\n");
    assert_eq!(
        highlight_quoting_marks("> a\n\n>> b\r\nc"),
        format!("{BLUE}>{RESET} a\n\n{BLUE}>{RESET}{BLUE}>{RESET} b\r\nc")
    );
}

#[test]
fn engine_passes_other_languages_through() {
    let mut engine = HighlighterEngine::new().unwrap();
    assert_eq!(engine.highlight_code("cobol", "MOVE A TO B."), Ok("MOVE A TO B.".to_string()));
    assert_eq!(engine.highlight_code("C", "int x;"), Ok("int x;".to_string()));
}

#[test]
fn engine_highlights_c() {
    let mut engine = HighlighterEngine::new().unwrap();
    let out = engine.highlight_code("c", "int x = 1;\n").unwrap();
    assert_ne!(out, "int x = 1;\n");
    assert!(out.contains("\x1b[1;36mint\x1b[0m"));
    assert!(out.contains("\x1b[0;36m1\x1b[0m"));
    let mut plain = out.clone();
    for class in 0..9 {
        plain = plain.replace(ansi_for_class(class), "");
    }
    assert_eq!(plain, "int x = 1;\n");
}

#[test]
fn engine_paints_text_headers_and_metadata_alike() {
    let mut engine = HighlighterEngine::new().unwrap();
    let expected = format!("{BLUE}>{RESET} index 1..2\n");
    assert_eq!(engine.highlight_text("> index 1..2\n"), expected);
    assert_eq!(engine.highlight_diffh("> index 1..2\n"), expected);
    assert_eq!(engine.highlight_diffm("> index 1..2\n"), expected);
}
