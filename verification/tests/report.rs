use patchlight::debug::{chunk_layout, dump_tree, print_chunks, print_lines};
use patchlight::parser::line::Line;
use patchlight::syntax::SyntaxNode;

fn preview(s: &str) -> String {
    let mut p = s.to_string();
    if p.len() > 80 {
        p.truncate(77);
        p.push_str("...");
    }
    format!("{:?}", p)
}

fn shorten(s: &str, max: usize) -> String {
    if s.len() <= max {
        format!("{:width$}", s, width = max)
    } else {
        format!("...{}", &s[s.len() - max + 3..])
    }
}

fn head(line: &Line) -> String {
    match line {
        Line::Text { offset, quoting_layer, length, .. } => {
            format!("TXT  off:{:>5}  q:{:<2}  len:{:>4}", offset, quoting_layer, length)
        }
        Line::DiffHeader { offset, quoting_layer, file_path, length, .. } => format!(
            "DIFF off:{:>5}  q:{:<2}  len:{:>4}              file:{:<20}",
            offset,
            quoting_layer,
            length,
            shorten(file_path, 20)
        ),
        Line::DiffMetadata { offset, quoting_layer, length, .. } => {
            format!("META off:{:>5}  q:{:<2}  len:{:>4}", offset, quoting_layer, length)
        }
        Line::HunkHeader { offset, quoting_layer, file_path, language, length, .. } => format!(
            "HUNK off:{:>5}  q:{:<2}  len:{:>4}              file:{:<20} lang:{:<7}",
            offset,
            quoting_layer,
            length,
            shorten(file_path, 20),
            language,
        ),
        Line::Code { offset, quoting_layer, kind, file_path, language, length, .. } => format!(
            "CODE off:{:>5}  q:{:<2}  len:{:>4}  kind:{:<7} file:{:<20} lang:{:<7}",
            offset,
            quoting_layer,
            length,
            format!("{:?}", kind),
            shorten(file_path, 20),
            language
        ),
    }
}

fn expected_rows(lines: &[Line]) -> Vec<String> {
    let rows: Vec<(String, String)> =
        lines.iter().map(|line| (head(line), preview(line.get_raw()))).collect();
    let width = rows.iter().map(|(p, _)| p.len()).max().unwrap_or(0);
    rows.iter().map(|(p, raw)| format!("{:<width$}  raw: {}", p, raw, width = width)).collect()
}

fn expected_chunks(chunks: &[(usize, usize)], src: &str) -> Vec<String> {
    const RED: &str = "\x1b[1;31m";
    const RESET: &str = "\x1b[0m";
    let mut out = vec![String::new(), format!("{:=^80}", " Chunks ")];
    let mut all_chunks = Vec::new();
    let mut last_end = 0;
    for &(start, end) in chunks {
        if start > last_end {
            all_chunks.push((last_end, start, true));
        }
        all_chunks.push((start, end, false));
        last_end = end;
    }
    if last_end < src.len() {
        all_chunks.push((last_end, src.len(), true));
    }
    for (i, &(start, end, is_error)) in all_chunks.iter().enumerate() {
        let len = end - start;
        let mut lines = src[start..end].lines();
        let label = if is_error { "ERROR" } else { "" };
        let prefix = format!(
            " {idx:>3}. [{start:>5},{end:<5}] len={len:<5} {RED}{label:<6}{RESET}  ",
            idx = i + 1,
            start = start,
            end = end - 1,
            len = len,
            label = label
        );
        if let Some(first_line) = lines.next() {
            out.push(format!("{prefix}{first_line}"));
            let indent_width = prefix.chars().count() - RED.len() - RESET.len();
            let code_offset = first_line.chars().take_while(|c| c.is_whitespace()).count();
            let indent = " ".repeat(indent_width + code_offset);
            for line in lines {
                out.push(format!("{indent}{line}"));
            }
        }
    }
    out.push(format!("{:=^80}", ""));
    out.push(String::new());
    out
}

#[test]
fn rows_of_a_diff() {
    let source = "Hi \"all\",\n\n> diff --git a/drivers/net/ethernet/intel/ice/ice_main.c b/x\n> index 1..2\n> @@ -1 +1 @@\n> -\told\\n\n> +new\n>  same\ndiff --git a/s.py b/s.py\n@@ -1000,3 +1000,3 @@ def f():\n+\u{e9}t\u{e9}\n";
    let lines = Line::parse_lines(source);
    let rows = print_lines(&lines);
    assert_eq!(rows, expected_rows(&lines));
    assert_eq!(
        rows[0],
        format!("{:<83}  raw: {}", "TXT  off:    0  q:0   len:  10", "\"Hi \\\"all\\\",\"")
    );
    assert_eq!(
        rows[2],
        format!(
            "{:<83}  raw: {}",
            "DIFF off:   11  q:1   len:  61              file:...el/ice/ice_main.c",
            "\"> diff --git a/drivers/net/ethernet/intel/ice/ice_main.c b/x\""
        )
    );
    assert_eq!(
        rows[5],
        "CODE off:   99  q:1   len:  10  kind:Remove  file:...el/ice/ice_main.c lang:C        raw: \"> -\\told\\\\n\""
    );
    assert_eq!(
        rows[10],
        "CODE off:  180  q:0   len:   7  kind:Add     file:s.py                 lang:Python   raw: \"+\u{e9}t\u{e9}\""
    );
}

#[test]
fn rows_of_text_only() {
    let lines = Line::parse_lines("a\n> b\n");
    assert_eq!(
        print_lines(&lines),
        vec![
            "TXT  off:    0  q:0   len:   2  raw: \"a\"".to_string(),
            "TXT  off:    2  q:1   len:   4  raw: \"> b\"".to_string(),
        ]
    );
    assert!(print_lines(&[]).is_empty());
}

#[test]
fn rows_cut_long_lines_and_wide_numbers() {
    let mut source = String::new();
    for _ in 0..1200 {
        source.push_str("0123456789 0123456789 0123456789 0123456789 0123456789 0123456789 0123456789 0123456789\n");
    }
    source.push_str(&">".repeat(120));
    source.push('\n');
    source.push_str(&"x".repeat(80));
    source.push('\n');
    source.push_str(&"y".repeat(81));
    let lines = Line::parse_lines(&source);
    let rows = print_lines(&lines);
    assert_eq!(rows, expected_rows(&lines));
    assert!(rows[1199].starts_with("TXT  off:105512  q:0   len:  88   raw: \"0123456789 "));
    assert!(rows[1199].ends_with("0123456789 0123456789 ...\""));
    assert!(rows[1200].starts_with("TXT  off:105600  q:120  len: 121  raw: \">>>"));
    assert!(rows[1201].ends_with(&format!("raw: \"{}\"", "x".repeat(80))));
    assert!(rows[1202].ends_with(&format!("raw: \"{}...\"", "y".repeat(77))));
}

#[test]
fn rows_pad_by_characters() {
    let lines = Line::parse_lines("diff --git a/\u{e9}t\u{e9}.c b\n@@\n+x\ntext\n");
    let rows = print_lines(&lines);
    assert_eq!(rows, expected_rows(&lines));
    assert!(rows[0].contains("file:\u{e9}t\u{e9}.c                "));
}

#[test]
fn report_on_chunks() {
    let src = "int x;\n  if (a) {\n    b();\n  }\nfoo bar\n";
    let chunks = [(0, 6), (9, 31), (31, 31)];
    let rows = print_chunks(&chunks, src);
    assert_eq!(rows, expected_chunks(&chunks, src));
    assert_eq!(rows[0], "");
    assert_eq!(rows[1], format!("{} Chunks {}", "=".repeat(36), "=".repeat(36)));
    assert_eq!(rows[2], "   1. [    0,5    ] len=6     \x1b[1;31m      \x1b[0m  int x;");
    assert_eq!(rows[3], "   2. [    6,8    ] len=3     \x1b[1;31mERROR \x1b[0m  ");
    assert_eq!(rows[4], " ".repeat(40));
    assert_eq!(rows[5], "   3. [    9,30   ] len=22    \x1b[1;31m      \x1b[0m  if (a) {");
    assert_eq!(rows[6], format!("{}    b();", " ".repeat(38)));
    assert_eq!(rows[7], format!("{}  }}", " ".repeat(38)));
    assert_eq!(rows[8], "   5. [   31,38   ] len=8     \x1b[1;31mERROR \x1b[0m  foo bar");
    assert_eq!(rows[9], "=".repeat(80));
    assert_eq!(rows[10], "");
    assert_eq!(rows.len(), 11);
}

#[test]
fn report_on_no_chunks() {
    assert_eq!(print_chunks(&[], ""), expected_chunks(&[], ""));
    assert_eq!(print_chunks(&[], "a\r\n\tb"), expected_chunks(&[], "a\r\n\tb"));
    assert_eq!(print_chunks(&[(0, 5)], "a\r\n\tb"), expected_chunks(&[(0, 5)], "a\r\n\tb"));
    assert_eq!(chunk_layout(&[], 5), vec![(0, 5, true)]);
}

fn expected_dump(node: &SyntaxNode, source: &str, indent: usize, out: &mut Vec<String>) {
    let indent_str = "  ".repeat(indent);
    let span = &source[node.start..node.end];
    out.push(format!("{indent_str}{}: {:?}", node.kind, span.trim()));
    for child in &node.children {
        expected_dump(child, source, indent + 1, out);
    }
}

#[test]
fn dump_of_a_built_tree() {
    let source = " int\tx ;\n";
    let tree = SyntaxNode::branch(
        "declaration",
        0,
        9,
        vec![
            SyntaxNode::leaf("primitive_type", 1, 4),
            SyntaxNode::branch("declarator", 4, 7, vec![SyntaxNode::leaf("identifier", 5, 6)]),
            SyntaxNode::leaf(";", 7, 8),
            SyntaxNode::leaf("blank", 8, 9),
        ],
    );
    assert_eq!(source.len(), 9);
    assert_eq!(
        dump_tree(&tree, source),
        vec![
            "declaration: \"int\\tx ;\"",
            "  primitive_type: \"int\"",
            "  declarator: \"x\"",
            "    identifier: \"x\"",
            "  ;: \";\"",
            "  blank: \"\"",
        ]
    );
}

#[test]
fn dump_of_a_parsed_tree() {
    let source = "static int f(void)\n{\n\treturn \"\u{e9}\";\n}\n";
    let mut parser = tree_sitter::Parser::new();
    parser.set_language(&tree_sitter_c::LANGUAGE.into()).unwrap();
    let parsed = parser.parse(source, None).unwrap();
    let tree = SyntaxNode::from_node(&parsed.root_node(), usize::MAX);
    let mut expected = Vec::new();
    expected_dump(&tree, source, 0, &mut expected);
    let rows = dump_tree(&tree, source);
    assert_eq!(rows, expected);
    assert!(rows.len() > 10);
    assert!(rows[0].starts_with("translation_unit: \"static int f(void)\\n{"));
    assert_eq!(rows[1].split(':').next(), Some("  function_definition"));
}
