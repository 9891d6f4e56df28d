use patchlight::parser::line::{
    detect_language, extract_file_path, match_code_kind, CodeKind, LayerState, Line, LineKind,
    State,
};
use patchlight::parser::quoting::quoting_layer;
use patchlight::parser::span::{build_spans, Span};

fn kinds(lines: &[Line]) -> Vec<LineKind> {
    lines.iter().map(|line| line.get_kind()).collect()
}

fn ranges(lines: &[Line]) -> Vec<(usize, usize)> {
    lines.iter().map(|line| (line.get_offset(), line.get_length())).collect()
}

fn raws<'a>(lines: &[Line<'a>]) -> Vec<&'a str> {
    lines.iter().map(|line| line.get_raw()).collect()
}

#[test]
fn quoting_layer_counts_leading_markers() {
    assert_eq!(quoting_layer(""), 0);
    assert_eq!(quoting_layer("plain"), 0);
    assert_eq!(quoting_layer("   \t "), 0);
    assert_eq!(quoting_layer("> quoted"), 1);
    assert_eq!(quoting_layer(">"), 1);
    assert_eq!(quoting_layer(">> twice"), 2);
    assert_eq!(quoting_layer("> > twice"), 2);
    assert_eq!(quoting_layer(" > > \t> x > y"), 3);
    assert_eq!(quoting_layer(">>>>"), 4);
}

#[test]
fn quoting_layer_stops_at_the_first_other_character() {
    assert_eq!(quoting_layer("->field"), 0);
    assert_eq!(quoting_layer("a > b"), 0);
    assert_eq!(quoting_layer(">x>>"), 1);
    assert_eq!(quoting_layer("> \u{a0}> x"), 1);
    assert_eq!(quoting_layer("\u{3e}\u{ff1e}"), 1);
}

#[test]
fn quoting_layer_grows_with_the_leading_markers() {
    let mut line = String::from("text");
    let mut last = quoting_layer(&line);
    for _ in 0..6 {
        line.insert_str(0, "> ");
        let depth = quoting_layer(&line);
        assert_eq!(depth, last + 1);
        last = depth;
    }
    line.insert(0, ' ');
    assert_eq!(quoting_layer(&line), last);
}

#[test]
fn file_path_is_the_third_word() {
    assert_eq!(extract_file_path("diff --git a/src/main.c b/src/main.c"), "src/main.c");
    assert_eq!(extract_file_path("diff --git b/src/main.c"), "b/src/main.c");
    assert_eq!(extract_file_path("  diff \t --git\u{a0}a/x.rs   b/x.rs  "), "x.rs");
    assert_eq!(extract_file_path("one two three"), "three");
}

#[test]
fn file_path_loses_every_leading_side_mark() {
    assert_eq!(extract_file_path("diff --git a/a/b.c b/a/b.c"), "b.c");
    assert_eq!(extract_file_path("diff --git a/ b/"), "");
    assert_eq!(extract_file_path("diff --git a b"), "a");
    assert_eq!(extract_file_path("diff --git aa/x b"), "aa/x");
}

#[test]
fn file_path_falls_back_to_unknown() {
    assert_eq!(extract_file_path("diff --git"), "unknown");
    assert_eq!(extract_file_path("diff --git   "), "unknown");
    assert_eq!(extract_file_path(""), "unknown");
}

#[test]
fn language_follows_the_extension() {
    assert_eq!(detect_language("src/main.c"), "C");
    assert_eq!(detect_language("include/api.h"), "C Header");
    assert_eq!(detect_language("src/lib.rs"), "Rust");
    assert_eq!(detect_language("tools/run.py"), "Python");
    assert_eq!(detect_language("a.tar.c"), "C");
    assert_eq!(detect_language(".c"), "C");
}

#[test]
fn language_is_unknown_without_a_listed_extension() {
    assert_eq!(detect_language("README.md"), "Unknown");
    assert_eq!(detect_language("Makefile"), "Unknown");
    assert_eq!(detect_language("unknown"), "Unknown");
    assert_eq!(detect_language("c"), "Unknown");
    assert_eq!(detect_language("rs"), "Unknown");
    assert_eq!(detect_language("main.c/notes"), "Unknown");
    assert_eq!(detect_language("main."), "Unknown");
    assert_eq!(detect_language("main.C"), "Unknown");
    assert_eq!(detect_language(""), "Unknown");
}

#[test]
fn code_kind_is_the_first_sign() {
    assert_eq!(match_code_kind("+added"), Some(CodeKind::Add));
    assert_eq!(match_code_kind("-removed"), Some(CodeKind::Remove));
    assert_eq!(match_code_kind(" \t +added"), Some(CodeKind::Add));
    assert_eq!(match_code_kind("\t-removed"), Some(CodeKind::Remove));
    assert_eq!(match_code_kind("context"), Some(CodeKind::Context));
    assert_eq!(match_code_kind("x + y"), Some(CodeKind::Context));
    assert_eq!(match_code_kind(""), Some(CodeKind::Context));
    assert_eq!(match_code_kind("   "), Some(CodeKind::Context));
}

#[test]
fn header_then_hunk_marker_gives_one_of_each() {
    let lines = Line::parse_lines("diff --git a/src/main.c b/src/main.c\n@@ -1,2 +1,2 @@\n");
    assert_eq!(kinds(&lines), vec![LineKind::DiffHeader, LineKind::HunkHeader]);
    assert!(matches!(&lines[0], Line::DiffHeader { file_path, .. } if file_path == "src/main.c"));
    assert!(matches!(
        &lines[1],
        Line::HunkHeader { file_path, language, .. } if file_path == "src/main.c" && language == "C"
    ));
}

#[test]
fn layer_moves_from_text_to_diff_to_hunk() {
    let mut layer = LayerState::new();
    assert_eq!(layer.state, State::Text);
    assert_eq!(layer.file_path, "");
    assert_eq!(layer.language, "Unknown");
    let header = layer.classify(0, 27, "diff --git a/foo.py b/foo.py");
    assert_eq!(header.get_kind(), LineKind::DiffHeader);
    assert_eq!(layer.state, State::Diff);
    assert_eq!(layer.file_path, "foo.py");
    assert_eq!(layer.language, "Python");
    let hunk = layer.classify(27, 12, "@@ -1 +1 @@");
    assert_eq!(hunk.get_kind(), LineKind::HunkHeader);
    assert_eq!(layer.state, State::Hunk);
    assert_eq!((hunk.get_offset(), hunk.get_length(), hunk.get_end_offset()), (27, 12, 39));
}

#[test]
fn lines_after_a_hunk_header_are_code_with_their_sign() {
    let lines = Line::parse_lines("diff --git a/f.c b/f.c\n@@ -1 +1 @@\n-old\n+new\n same\n\n");
    let signs: Vec<Option<CodeKind>> = lines
        .iter()
        .map(|line| match line {
            Line::Code { kind, .. } => Some(*kind),
            _ => None,
        })
        .collect();
    assert_eq!(
        signs,
        vec![
            None,
            None,
            Some(CodeKind::Remove),
            Some(CodeKind::Add),
            Some(CodeKind::Context),
            Some(CodeKind::Context)
        ]
    );
    assert!(matches!(
        &lines[2],
        Line::Code { file_path, language, raw: "-old", .. } if file_path == "f.c" && language == "C"
    ));
}

#[test]
fn code_state_takes_each_sign() {
    for (raw, sign) in [
        ("-gone", CodeKind::Remove),
        ("+come", CodeKind::Add),
        (" kept", CodeKind::Context),
        ("", CodeKind::Context),
        ("\\ No newline at end of file", CodeKind::Context),
    ] {
        let mut layer = LayerState { state: State::Hunk, file_path: "a.h".into(), language: "C Header".into() };
        let line = layer.classify(5, 9, raw);
        assert!(matches!(
            &line,
            Line::Code { offset: 5, length: 9, quoting_layer: 0, kind, file_path, language, .. }
                if *kind == sign && file_path == "a.h" && language == "C Header"
        ));
        assert_eq!(line.get_raw(), raw);
        assert_eq!(layer.state, State::Code);
    }
}

#[test]
fn whole_diff_is_classified_line_by_line() {
    let source = "Hello,\n\ndiff --git a/foo.c b/foo.c\nindex 1..2 100644\n--- a/foo.c\n+++ b/foo.c\n@@ -1,3 +1,3 @@\n int a;\n-int b;\n+int c;\n@@ -9 +9 @@ int main(void)\n+return 0;\n";
    let lines = Line::parse_lines(source);
    assert_eq!(
        kinds(&lines),
        vec![
            LineKind::Text,
            LineKind::Text,
            LineKind::DiffHeader,
            LineKind::DiffMetadata,
            LineKind::DiffMetadata,
            LineKind::DiffMetadata,
            LineKind::HunkHeader,
            LineKind::Code,
            LineKind::Code,
            LineKind::Code,
            LineKind::HunkHeader,
            LineKind::Code,
        ]
    );
    assert_eq!(raws(&lines).join("\n") + "\n", source);
}

#[test]
fn no_line_leads_back_to_text() {
    let lines = Line::parse_lines("diff --git a/f.c b/f.c\nprose\n@@ -1 +1 @@\nprose\ndiff --git a/g.rs b/g.rs\n");
    assert_eq!(
        kinds(&lines),
        vec![
            LineKind::DiffHeader,
            LineKind::DiffMetadata,
            LineKind::HunkHeader,
            LineKind::Code,
            LineKind::Code,
        ]
    );
    assert!(matches!(&lines[4], Line::Code { file_path, .. } if file_path == "f.c"));
}

#[test]
fn interleaved_layers_do_not_disturb_each_other() {
    let source = "diff --git a/a.c b/a.c\n> diff --git a/b.py b/b.py\n@@ -1 +1 @@\n> index 3..4\n+x\n> @@ -2 +2 @@\n>> deep\n-y\n> -z\n";
    let lines = Line::parse_lines(source);
    let depths: Vec<usize> = lines.iter().map(|line| line.get_quoting_layer()).collect();
    assert_eq!(depths, vec![0, 1, 0, 1, 0, 1, 2, 0, 1]);
    assert_eq!(
        kinds(&lines),
        vec![
            LineKind::DiffHeader,
            LineKind::DiffHeader,
            LineKind::HunkHeader,
            LineKind::DiffMetadata,
            LineKind::Code,
            LineKind::HunkHeader,
            LineKind::Text,
            LineKind::Code,
            LineKind::Code,
        ]
    );
    assert!(matches!(
        &lines[2],
        Line::HunkHeader { file_path, language, .. } if file_path == "a.c" && language == "C"
    ));
    assert!(matches!(
        &lines[4],
        Line::Code { kind: CodeKind::Add, file_path, language, .. } if file_path == "a.c" && language == "C"
    ));
    assert!(matches!(
        &lines[5],
        Line::HunkHeader { file_path, language, .. } if file_path == "b.py" && language == "Python"
    ));
    assert!(matches!(
        &lines[7],
        Line::Code { kind: CodeKind::Remove, file_path, language, .. } if file_path == "a.c" && language == "C"
    ));
    assert!(matches!(
        &lines[8],
        Line::Code { kind: CodeKind::Remove, file_path, language, .. } if file_path == "b.py" && language == "Python"
    ));
}

#[test]
fn a_layer_gives_the_same_records_with_or_without_other_layers() {
    let mixed = Line::parse_lines("diff --git a/a.c b/a.c\n> quoted\n@@ -1 +1 @@\n>> deeper\n+x\n");
    let alone = Line::parse_lines("diff --git a/a.c b/a.c\n@@ -1 +1 @@\n+x\n");
    let own: Vec<&Line> = mixed.iter().filter(|line| line.get_quoting_layer() == 0).collect();
    assert_eq!(own.len(), alone.len());
    for (with, without) in own.iter().zip(alone.iter()) {
        assert!(with.same_variant(without));
        assert_eq!(with.get_raw(), without.get_raw());
    }
}

#[test]
fn quoted_lines_are_classified_by_their_stripped_text() {
    let lines = Line::parse_lines(" > > diff --git a/x.rs b/x.rs\n>>@@ -1 +1 @@\n> >\t-gone\n");
    assert_eq!(kinds(&lines), vec![LineKind::DiffHeader, LineKind::HunkHeader, LineKind::Code]);
    assert!(lines.iter().all(|line| line.get_quoting_layer() == 2));
    assert!(matches!(
        &lines[2],
        Line::Code { kind: CodeKind::Remove, file_path, language, .. } if file_path == "x.rs" && language == "Rust"
    ));
}

#[test]
fn records_cover_the_input() {
    for source in [
        "",
        "\n",
        "a",
        "a\n",
        "a\r\nb",
        "\r\n\r\n",
        "one\ntwo\r\nthree\n\nfive",
        "h\u{e9}llo\n> w\u{f6}rld\n",
        "lone\rreturn\n",
    ] {
        let lines = Line::parse_lines(source);
        let mut at = 0;
        for line in &lines {
            assert_eq!(line.get_offset(), at);
            assert!(line.get_length() > 0);
            let raw = line.get_raw();
            assert_eq!(&source[at..at + raw.len()], raw);
            let ending = &source[at + raw.len()..line.get_end_offset()];
            assert!(ending == "" || ending == "\n" || ending == "\r\n");
            at = line.get_end_offset();
        }
        assert_eq!(at, source.len());
    }
}

#[test]
fn offsets_and_lengths_are_in_bytes() {
    assert_eq!(ranges(&Line::parse_lines("")), vec![]);
    assert_eq!(ranges(&Line::parse_lines("\n")), vec![(0, 1)]);
    assert_eq!(ranges(&Line::parse_lines("abc")), vec![(0, 3)]);
    assert_eq!(ranges(&Line::parse_lines("abc\n")), vec![(0, 4)]);
    assert_eq!(ranges(&Line::parse_lines("a\r\nb")), vec![(0, 3), (3, 1)]);
    assert_eq!(ranges(&Line::parse_lines("h\u{e9}llo\n> w\u{f6}rld\n")), vec![(0, 7), (7, 9)]);
    assert_eq!(raws(&Line::parse_lines("a\r\nb\r")), vec!["a", "b\r"]);
    assert_eq!(raws(&Line::parse_lines("\r\n\n")), vec!["", ""]);
}

#[test]
fn lines_compare_by_layer_and_by_kind() {
    let lines = Line::parse_lines("a\n> b\nc\ndiff --git x y z\n");
    assert!(lines[0].same_quoting_layer(&lines[2]));
    assert!(!lines[0].same_quoting_layer(&lines[1]));
    assert!(lines[0].same_variant(&lines[1]));
    assert!(!lines[0].same_variant(&lines[3]));
    assert_eq!(lines[1].get_quoting_layer(), 1);
    assert_eq!(lines[1].get_raw(), "> b");
    assert!(matches!(&lines[3], Line::DiffHeader { file_path, .. } if file_path == "x"));
}

#[test]
fn spans_group_lines_of_one_layer_and_kind() {
    let lines = Line::parse_lines("a\nb\n> c\nd\n");
    let spans = build_spans(&lines);
    assert_eq!(spans.len(), 3);
    assert!(matches!(&spans[0], Span::Text { start: 0, end: 4, quoting_layer: 0, lines } if lines.len() == 2));
    assert!(matches!(&spans[1], Span::Text { start: 4, end: 8, quoting_layer: 1, lines } if lines.len() == 1));
    assert!(matches!(&spans[2], Span::Text { start: 8, end: 10, quoting_layer: 0, lines } if lines.len() == 1));
}

#[test]
fn spans_of_nothing_are_nothing() {
    assert!(build_spans(&[]).is_empty());
    assert!(build_spans(&Line::parse_lines("")).is_empty());
}

#[test]
fn spans_of_a_diff() {
    let source = "hi\ndiff --git a/f.c b/f.c\nindex 1\n--- a/f.c\n@@ -1 +1 @@\n-a\n+b\n c\n@@ -7 +7 @@\n+d\n";
    let lines = Line::parse_lines(source);
    let spans = build_spans(&lines);
    assert_eq!(spans.len(), 7);
    assert!(matches!(&spans[0], Span::Text { start: 0, end: 3, .. }));
    assert!(matches!(&spans[1], Span::DiffHeader { start: 3, end: 26, lines, .. } if lines.len() == 1));
    assert!(matches!(&spans[2], Span::DiffMetadata { start: 26, end: 44, lines, .. } if lines.len() == 2));
    assert!(matches!(&spans[3], Span::HunkHeader { start: 44, end: 56, .. }));
    assert!(matches!(
        &spans[4],
        Span::Code { start: 56, end: 65, kind: CodeKind::Remove, quoting_layer: 0, lines } if lines.len() == 3
    ));
    assert!(matches!(&spans[5], Span::HunkHeader { start: 65, end: 77, .. }));
    assert!(matches!(
        &spans[6],
        Span::Code { start: 77, end: 80, kind: CodeKind::Add, lines, .. } if lines.len() == 1
    ));
    assert_eq!(source.len(), 80);
}

#[test]
fn spans_partition_the_records() {
    let source = "a\n> b\n> c\ndiff --git a/f.c b/f.c\n> d\n@@ x\n+1\n>> e\n+2\n\n";
    let lines = Line::parse_lines(source);
    let spans = build_spans(&lines);
    let mut line_at = 0;
    let mut byte_at = 0;
    for span in &spans {
        let run = span.get_lines();
        assert!(!run.is_empty());
        let (start, end) = match span {
            Span::Text { start, end, .. }
            | Span::DiffHeader { start, end, .. }
            | Span::DiffMetadata { start, end, .. }
            | Span::HunkHeader { start, end, .. }
            | Span::Code { start, end, .. } => (*start, *end),
        };
        assert_eq!(start, byte_at);
        assert_eq!(start, lines[line_at].get_offset());
        for line in run {
            assert!(line.same_variant(&run[0]) && line.same_quoting_layer(&run[0]));
            assert_eq!(line.get_offset(), lines[line_at].get_offset());
            line_at += 1;
        }
        assert_eq!(end, lines[line_at - 1].get_end_offset());
        if line_at < lines.len() {
            let next = &lines[line_at];
            assert!(!(next.same_variant(&run[0]) && next.same_quoting_layer(&run[0])));
        }
        byte_at = end;
    }
    assert_eq!(line_at, lines.len());
    assert_eq!(byte_at, source.len());
}
