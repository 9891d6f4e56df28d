use patchlight::chunk_collector::ChunkCollector;
use patchlight::heuristics::Heuristics;
use patchlight::syntax::SyntaxNode;

fn ranges(nodes: &[&SyntaxNode]) -> Vec<(usize, usize)> {
    nodes.iter().map(|node| (node.start, node.end)).collect()
}

#[test]
fn merge_adjacent_closes_a_gap_of_one() {
    let mut chunks = vec![(0, 3), (4, 6), (10, 12)];
    ChunkCollector::merge_adjacent(&mut chunks);
    assert_eq!(chunks, vec![(0, 6), (10, 12)]);
}

#[test]
fn merge_adjacent_of_nothing_is_nothing() {
    let mut chunks: Vec<(usize, usize)> = Vec::new();
    ChunkCollector::merge_adjacent(&mut chunks);
    assert!(chunks.is_empty());
}

#[test]
fn merge_adjacent_sorts_unsorted_input() {
    let mut chunks = vec![(10, 12), (4, 6), (0, 3), (20, 25), (5, 9), (30, 31)];
    ChunkCollector::merge_adjacent(&mut chunks);
    assert_eq!(chunks, vec![(0, 12), (20, 25), (30, 31)]);
}

#[test]
fn merge_adjacent_keeps_a_gap_of_two() {
    let mut chunks = vec![(0, 3), (5, 6)];
    ChunkCollector::merge_adjacent(&mut chunks);
    assert_eq!(chunks, vec![(0, 3), (5, 6)]);
}

#[test]
fn merge_adjacent_keeps_the_longer_end() {
    let mut chunks = vec![(0, 10), (2, 4), (11, 12)];
    ChunkCollector::merge_adjacent(&mut chunks);
    assert_eq!(chunks, vec![(0, 12)]);
}

#[test]
fn merge_adjacent_does_not_overflow_at_the_last_offset() {
    let mut chunks = vec![(3, usize::MAX), (usize::MAX, usize::MAX)];
    ChunkCollector::merge_adjacent(&mut chunks);
    assert_eq!(chunks, vec![(3, usize::MAX)]);
}

#[test]
fn merge_adjacent_is_idempotent() {
    let mut chunks = vec![(7, 9), (0, 3), (4, 6), (10, 12), (40, 41)];
    ChunkCollector::merge_adjacent(&mut chunks);
    let once = chunks.clone();
    ChunkCollector::merge_adjacent(&mut chunks);
    assert_eq!(chunks, once);
    assert_eq!(once, vec![(0, 12), (40, 41)]);
}

#[test]
fn run_of_two_identifiers_is_dropped() {
    let node = SyntaxNode::branch(
        "compound",
        0,
        12,
        vec![
            SyntaxNode::leaf("identifier", 0, 3),
            SyntaxNode::leaf("identifier", 4, 7),
            SyntaxNode::leaf("{", 8, 9),
            SyntaxNode::leaf("}", 11, 12),
        ],
    );
    let kept = Heuristics::filter_children(&node, "foo bar {  }");
    assert_eq!(ranges(&kept), vec![(8, 9), (11, 12)]);
}

#[test]
fn lone_identifier_is_kept() {
    let node = SyntaxNode::branch(
        "compound",
        0,
        8,
        vec![
            SyntaxNode::leaf("identifier", 0, 3),
            SyntaxNode::leaf("{", 4, 5),
            SyntaxNode::leaf("}", 7, 8),
        ],
    );
    let kept = Heuristics::filter_children(&node, "foo {  }");
    assert_eq!(ranges(&kept), vec![(0, 3), (4, 5), (7, 8)]);
}

#[test]
fn lone_token_at_the_end_is_kept() {
    let node = SyntaxNode::branch(
        "expression",
        0,
        5,
        vec![SyntaxNode::leaf("(", 0, 1), SyntaxNode::leaf("number_literal", 2, 4)],
    );
    let kept = Heuristics::filter_children(&node, "( 42 ");
    assert_eq!(ranges(&kept), vec![(0, 1), (2, 4)]);
}

#[test]
fn declaration_without_terminator_is_not_valid() {
    let dangling = SyntaxNode::branch(
        "declaration",
        0,
        5,
        vec![SyntaxNode::leaf("primitive_type", 0, 3), SyntaxNode::leaf("identifier", 4, 5)],
    );
    assert!(Heuristics::filter_children(&dangling, "int x").is_empty());
    assert_eq!(ChunkCollector::collect(&dangling, "int x"), vec![(0, 5)]);
}

#[test]
fn declaration_with_missing_terminator_is_not_valid() {
    let mut terminator = SyntaxNode::leaf(";", 5, 5);
    terminator.missing = true;
    let dangling = SyntaxNode::branch(
        "declaration",
        0,
        5,
        vec![
            SyntaxNode::leaf("primitive_type", 0, 3),
            SyntaxNode::leaf("identifier", 4, 5),
            terminator,
        ],
    );
    assert!(Heuristics::filter_children(&dangling, "int x").is_empty());
}

#[test]
fn nested_dangling_declaration_is_left_out() {
    let dangling = SyntaxNode::branch(
        "declaration",
        4,
        9,
        vec![SyntaxNode::leaf("primitive_type", 4, 7), SyntaxNode::leaf("identifier", 8, 9)],
    );
    let root = SyntaxNode::branch(
        "translation_unit",
        0,
        12,
        vec![SyntaxNode::leaf("{", 0, 1), dangling, SyntaxNode::leaf("}", 11, 12)],
    );
    assert_eq!(ChunkCollector::collect(&root, "{   int x  }"), vec![(0, 1), (11, 12)]);
}

#[test]
fn collect_merges_the_tokens_of_a_declaration() {
    let declaration = SyntaxNode::branch(
        "declaration",
        0,
        10,
        vec![
            SyntaxNode::leaf("primitive_type", 0, 3),
            SyntaxNode::leaf("identifier", 4, 5),
            SyntaxNode::leaf("=", 6, 7),
            SyntaxNode::leaf("number_literal", 8, 9),
            SyntaxNode::leaf(";", 9, 10),
        ],
    );
    let root = SyntaxNode::branch("translation_unit", 0, 10, vec![declaration]);
    assert_eq!(ChunkCollector::collect(&root, "int x = 1;"), vec![(0, 10)]);
}

#[test]
fn collect_of_a_leaf_is_its_range() {
    let leaf = SyntaxNode::leaf("comment", 3, 9);
    assert_eq!(ChunkCollector::collect(&leaf, "   /* */"), vec![(3, 9)]);
}

#[test]
fn collect_of_only_dropped_tokens_is_the_whole_node() {
    let root = SyntaxNode::branch(
        "translation_unit",
        0,
        7,
        vec![SyntaxNode::leaf("identifier", 0, 3), SyntaxNode::leaf("ERROR", 4, 7)],
    );
    assert!(Heuristics::filter_children(&root, "foo bar").is_empty());
    assert_eq!(ChunkCollector::collect(&root, "foo bar"), vec![(0, 7)]);
}

#[test]
fn from_node_reads_a_parsed_tree() {
    let source = "int x = 1;\n";
    let mut parser = tree_sitter::Parser::new();
    parser.set_language(&tree_sitter_c::LANGUAGE.into()).unwrap();
    let tree = parser.parse(source, None).unwrap();
    let root = SyntaxNode::from_node(&tree.root_node(), usize::MAX);
    assert_eq!(root.kind, "translation_unit");
    assert_eq!((root.start, root.end), (0, source.len()));
    assert_eq!(root.children.len(), 1);
    let declaration = &root.children[0];
    assert_eq!(declaration.kind, "declaration");
    assert_eq!((declaration.start, declaration.end), (0, 10));
    let kinds: Vec<&str> = declaration.children.iter().map(|c| c.kind.as_str()).collect();
    assert_eq!(kinds, vec!["primitive_type", "init_declarator", ";"]);
    assert!(declaration.children.iter().all(|child| !child.missing));
    assert_eq!(ChunkCollector::collect(&root, source), vec![(0, 10)]);
}

#[test]
fn from_node_marks_a_missing_terminator() {
    let source = "int x = 1";
    let mut parser = tree_sitter::Parser::new();
    parser.set_language(&tree_sitter_c::LANGUAGE.into()).unwrap();
    let tree = parser.parse(source, None).unwrap();
    let root = SyntaxNode::from_node(&tree.root_node(), usize::MAX);
    let declaration = &root.children[0];
    assert_eq!(declaration.kind, "declaration");
    let last = declaration.children.last().unwrap();
    assert_eq!(last.kind, ";");
    assert!(last.missing);
    assert_eq!(ChunkCollector::collect(&root, source), vec![(0, 9)]);
}

#[test]
fn from_node_stops_at_the_depth_limit() {
    let source = "int x = 1;\n";
    let mut parser = tree_sitter::Parser::new();
    parser.set_language(&tree_sitter_c::LANGUAGE.into()).unwrap();
    let tree = parser.parse(source, None).unwrap();
    let root = SyntaxNode::from_node(&tree.root_node(), 1);
    assert_eq!(root.children.len(), 1);
    assert!(root.children[0].children.is_empty());
    let flat = SyntaxNode::from_node(&tree.root_node(), 0);
    assert!(flat.children.is_empty());
}
