//! The syntax tree of a code fragment, as far as chunk selection reads it.
use vstd::prelude::*;

verus! {

/// A node of a tree that the parser built.
#[verifier::external_type_specification]
#[verifier::external_body]
pub struct ExNode<'tree>(tree_sitter::Node<'tree>);

/// The tree under a node of the parser, as plain values: what
/// `tree_sitter::Node` tells of the node and of the nodes below it.
pub uninterp spec fn parsed_shape(node: tree_sitter::Node<'_>) -> Shape;

/// `tree_sitter::Node::kind`: the label of the node's kind.
#[verifier::external_body]
fn kind_of(node: &tree_sitter::Node<'_>) -> (kind: String)
    ensures
        kind@ == parsed_shape(*node).kind,
{
    node.kind().to_owned()
}

/// `tree_sitter::Node::start_byte`: the byte offset at which the node
/// starts.
#[verifier::external_body]
fn start_of(node: &tree_sitter::Node<'_>) -> (start: usize)
    ensures
        start == parsed_shape(*node).start,
{
    node.start_byte()
}

/// `tree_sitter::Node::end_byte`: the byte offset at which the node ends.
#[verifier::external_body]
fn end_of(node: &tree_sitter::Node<'_>) -> (end: usize)
    ensures
        end == parsed_shape(*node).end,
{
    node.end_byte()
}

/// `tree_sitter::Node::is_missing`: whether the parser put the node in to
/// recover from an error.
#[verifier::external_body]
fn is_missing(node: &tree_sitter::Node<'_>) -> (missing: bool)
    ensures
        missing == parsed_shape(*node).missing,
{
    node.is_missing()
}

/// `tree_sitter::Node::children`, with a cursor from
/// `tree_sitter::Node::walk`: the children of the node, in order.
#[verifier::external_body]
fn children_of<'tree>(node: &tree_sitter::Node<'tree>) -> (children: Vec<tree_sitter::Node<'tree>>)
    ensures
        children@.len() == parsed_shape(*node).children.len(),
        forall|i: int|
            0 <= i < children@.len() ==> parsed_shape(#[trigger] children@[i]) == parsed_shape(
                *node,
            ).children[i],
{
    let mut cursor = node.walk();
    node.children(&mut cursor).collect()
}

/// A syntax tree as plain values.
pub struct Shape {
    pub kind: Seq<char>,
    pub start: usize,
    pub end: usize,
    pub missing: bool,
    pub children: Seq<Shape>,
}

/// A node of a syntax tree: its kind label, the byte range it spans,
/// whether the parser made it up to recover from an error, and its
/// children in order.
#[derive(Debug)]
pub struct SyntaxNode {
    pub kind: String,
    pub start: usize,
    pub end: usize,
    pub missing: bool,
    pub children: Vec<SyntaxNode>,
}

/// The tree under `node` as plain values.
pub open spec fn shape_of(node: SyntaxNode) -> Shape
    decreases node,
{
    Shape {
        kind: node.kind@,
        start: node.start,
        end: node.end,
        missing: node.missing,
        children: Seq::new(
            node.children@.len(),
            |i: int|
                if 0 <= i < node.children@.len() {
                    shape_of(node.children@[i])
                } else {
                    arbitrary()
                },
        ),
    }
}

impl View for SyntaxNode {
    type V = Shape;

    open spec fn view(&self) -> Shape {
        shape_of(*self)
    }
}

impl Shape {
    /// Whether the node has no children.
    pub open spec fn is_leaf(self) -> bool {
        self.children.len() == 0
    }

    /// The byte range of the node.
    pub open spec fn range(self) -> (usize, usize) {
        (self.start, self.end)
    }
}

impl SyntaxNode {
    /// The children of a node are seen as the node has them.
    pub proof fn view_of_children(&self)
        ensures
            self@.children.len() == self.children@.len(),
            forall|i: int|
                0 <= i < self.children@.len() ==> self@.children[i] == (
                #[trigger] self.children@[i])@,
    {

    }

    /// A node with the given parts.
    pub fn new(kind: String, start: usize, end: usize, missing: bool, children: Vec<SyntaxNode>) -> (node:
        SyntaxNode)
        ensures
            node == (SyntaxNode { kind, start, end, missing, children }),
    {
        SyntaxNode { kind, start, end, missing, children }
    }

    /// A node without children.
    pub fn leaf(kind: &str, start: usize, end: usize) -> (node: SyntaxNode)
        ensures
            node.kind@ == kind@,
            node.start == start,
            node.end == end,
            !node.missing,
            node@.is_leaf(),
    {
        SyntaxNode { kind: kind.to_owned(), start, end, missing: false, children: Vec::new() }
    }

    /// A node with the given children, spanning the given range.
    pub fn branch(kind: &str, start: usize, end: usize, children: Vec<SyntaxNode>) -> (node:
        SyntaxNode)
        ensures
            node.kind@ == kind@,
            node.start == start,
            node.end == end,
            !node.missing,
            node.children == children,
    {
        SyntaxNode { kind: kind.to_owned(), start, end, missing: false, children }
    }
}

/// `shape` without the nodes that stand more than `limit` levels below
/// its root.
pub open spec fn cut_below(shape: Shape, limit: nat) -> Shape
    decreases limit,
{
    Shape {
        children: if limit == 0 {
            Seq::empty()
        } else {
            Seq::new(
                shape.children.len(),
                |i: int| cut_below(shape.children[i], (limit - 1) as nat),
            )
        },
        ..shape
    }
}

impl SyntaxNode {
    /// Reads the tree under `node` down to `max_depth` levels below it; a
    /// node at that depth is taken as a leaf.
    pub fn from_node(node: &tree_sitter::Node<'_>, max_depth: usize) -> (tree: SyntaxNode)
        ensures
            tree@ == cut_below(parsed_shape(*node), max_depth as nat),
        decreases max_depth,
    {
        let mut children: Vec<SyntaxNode> = Vec::new();
        if max_depth > 0 {
            let below = children_of(node);
            let mut at: usize = 0;
            while at < below.len()
                invariant
                    at <= below.len(),
                    max_depth > 0,
                    children@.len() == at,
                    below@.len() == parsed_shape(*node).children.len(),
                    forall|i: int|
                        0 <= i < below@.len() ==> parsed_shape(#[trigger] below@[i])
                            == parsed_shape(*node).children[i],
                    forall|i: int|
                        0 <= i < at ==> (#[trigger] children@[i])@ == cut_below(
                            parsed_shape(*node).children[i],
                            (max_depth - 1) as nat,
                        ),
                decreases below.len() - at,
            {
                children.push(Self::from_node(&below[at], max_depth - 1));
                at += 1;
            }
        }
        let tree = SyntaxNode::new(
            kind_of(node),
            start_of(node),
            end_of(node),
            is_missing(node),
            children,
        );
        assert(tree@.children =~= cut_below(parsed_shape(*node), max_depth as nat).children);
        tree
    }
}

} // verus!
