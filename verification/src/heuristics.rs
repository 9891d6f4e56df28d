//! Which nodes of a syntax tree are sound enough to be highlighted, though
//! the fragment they come from may not parse.
use crate::syntax::{Shape, SyntaxNode};
use crate::text::same_text;
use vstd::prelude::*;

verus! {

/// Whether `node` is a leaf that stands for a bare token: an identifier, a
/// type identifier, a number, or a parse error.
pub open spec fn is_primitive(node: Shape) -> bool {
    &&& node.is_leaf()
    &&& (node.kind == "identifier"@ || node.kind == "type_identifier"@ || node.kind
        == "number_literal"@ || node.kind == "ERROR"@)
}

/// Whether `node` is a statement terminator that stands in the source.
pub open spec fn is_terminator(node: Shape) -> bool {
    node.kind == ";"@ && !node.missing
}

/// Whether `node` is valid: every node is, but a declaration without a
/// terminator among its children.
pub open spec fn is_valid(node: Shape) -> bool {
    node.kind == "declaration"@ ==> exists|i: int|
        0 <= i < node.children.len() && is_terminator(#[trigger] node.children[i])
}

/// What a run of `run` primitive children that ends before child `at`
/// leaves: the child itself when it is alone, nothing otherwise.
pub open spec fn flushed(node: Shape, at: int, run: nat) -> Seq<Shape> {
    if run == 1 {
        seq![node.children[at - 1]]
    } else {
        Seq::empty()
    }
}

/// The nodes that the walk over the children of `node` keeps from child
/// `at` on, with `run` primitive children pending before it.
///
/// A primitive child extends the pending run. Any other child ends the
/// run; a leaf is then kept as it is, and a child with children gives what
/// the walk over its own children keeps, or nothing when it is not valid.
pub open spec fn kept_from(node: Shape, at: int, run: nat) -> Seq<Shape>
    decreases node, node.children.len() - at,
{
    if at < 0 || at >= node.children.len() {
        flushed(node, at, run)
    } else {
        let child = node.children[at];
        if is_primitive(child) {
            kept_from(node, at + 1, run + 1)
        } else if child.is_leaf() {
            flushed(node, at, run) + seq![child] + kept_from(node, at + 1, 0)
        } else if is_valid(child) {
            flushed(node, at, run) + kept_from(child, 0, 0) + kept_from(node, at + 1, 0)
        } else {
            flushed(node, at, run) + kept_from(node, at + 1, 0)
        }
    }
}

/// The nodes under `node` that are kept: none when `node` is not valid,
/// `node` itself when it is a leaf, and else what the walk over its
/// children keeps.
pub open spec fn filtered(node: Shape) -> Seq<Shape> {
    if !is_valid(node) {
        Seq::empty()
    } else if node.is_leaf() {
        seq![node]
    } else {
        kept_from(node, 0, 0)
    }
}

/// Whether every node of `nodes` is a leaf.
pub open spec fn all_leaves(nodes: Seq<Shape>) -> bool {
    forall|i: int| 0 <= i < nodes.len() ==> (#[trigger] nodes[i]).is_leaf()
}

/// Whatever the walk keeps is a leaf.
proof fn kept_from_keeps_leaves(node: Shape, at: int, run: nat)
    requires
        0 <= at <= node.children.len(),
        run <= at,
        run >= 1 ==> is_primitive(node.children[at - 1]),
    ensures
        all_leaves(kept_from(node, at, run)),
    decreases node, node.children.len() - at,
{
    let pending = flushed(node, at, run);
    assert(all_leaves(pending));
    if at < node.children.len() {
        let child = node.children[at];
        if is_primitive(child) {
            kept_from_keeps_leaves(node, at + 1, run + 1);
        } else {
            let rest = kept_from(node, at + 1, 0);
            kept_from_keeps_leaves(node, at + 1, 0);
            if child.is_leaf() {
                assert(all_leaves(pending + seq![child] + rest));
            } else if is_valid(child) {
                kept_from_keeps_leaves(child, 0, 0);
                assert(all_leaves(pending + kept_from(child, 0, 0) + rest));
            } else {
                assert(all_leaves(pending + rest));
            }
        }
    }
}

/// Every node that is kept is a leaf: a token of the fragment.
pub proof fn filtered_keeps_leaves(node: Shape)
    ensures
        all_leaves(filtered(node)),
{
    if is_valid(node) && !node.is_leaf() {
        kept_from_keeps_leaves(node, 0, 0);
    }
}

/// The nodes that a list of references points to, as plain values.
pub open spec fn nodes_of(kept: Seq<&SyntaxNode>) -> Seq<Shape> {
    kept.map_values(|node: &SyntaxNode| node@)
}

/// Decides which nodes of a syntax tree are kept.
pub struct Heuristics;

impl Heuristics {
    /// The nodes under `node` that are sound enough to be highlighted, in
    /// the order of the source.
    pub fn filter_children<'a>(node: &'a SyntaxNode, source: &str) -> (kept: Vec<&'a SyntaxNode>)
        ensures
            nodes_of(kept@) == filtered(node@),
        decreases *node, 1nat,
    {
        if !Self::current_node_valid(node) {
            let kept: Vec<&'a SyntaxNode> = Vec::new();
            assert(nodes_of(kept@) =~= Seq::empty());
            return kept;
        }
        if node.children.len() == 0 {
            let mut kept: Vec<&'a SyntaxNode> = Vec::new();
            kept.push(node);
            assert(nodes_of(kept@) =~= seq![node@]);
            return kept;
        }
        Self::filter_identifier_blocks(node, source)
    }

    /// Walks the children of `parent` and keeps the sound ones: a bare
    /// token that stands alone between other nodes, every other leaf, and
    /// what is kept under each valid child that has children. A run of two
    /// or more bare tokens is dropped.
    fn filter_identifier_blocks<'a>(parent: &'a SyntaxNode, source: &str) -> (kept: Vec<
        &'a SyntaxNode,
    >)
        ensures
            nodes_of(kept@) == kept_from(parent@, 0, 0),
        decreases *parent, 0nat,
    {
        let mut kept: Vec<&'a SyntaxNode> = Vec::new();
        let mut run: usize = 0;
        let mut at: usize = 0;
        assert(nodes_of(kept@) =~= Seq::empty());
        while at < parent.children.len()
            invariant
                at <= parent.children.len(),
                run <= at,
                kept_from(parent@, 0, 0) == nodes_of(kept@) + kept_from(
                    parent@,
                    at as int,
                    run as nat,
                ),
            decreases parent.children.len() - at,
        {
            let child = &parent.children[at];
            let ghost before = nodes_of(kept@);
            let ghost rest = kept_from(parent@, at + 1, 0);
            let ghost pending = run;
            if Self::is_primitive_leaf(child) {
                run += 1;
            } else {
                if run == 1 {
                    kept.push(&parent.children[at - 1]);
                }
                assert(nodes_of(kept@) =~= before + flushed(parent@, at as int, run as nat));
                run = 0;
                let ghost flushed_too = nodes_of(kept@);
                if child.children.len() == 0 {
                    kept.push(child);
                    assert(nodes_of(kept@) =~= flushed_too + seq![child@]);
                } else {
                    let mut under = Self::filter_children(child, source);
                    let ghost found = nodes_of(under@);
                    kept.append(&mut under);
                    assert(nodes_of(kept@) =~= flushed_too + found);
                }
                assert(nodes_of(kept@) + rest =~= before + kept_from(
                    parent@,
                    at as int,
                    pending as nat,
                ));
            }
            at += 1;
        }
        if run == 1 {
            let ghost before = nodes_of(kept@);
            kept.push(&parent.children[at - 1]);
            assert(nodes_of(kept@) =~= before + flushed(parent@, at as int, run as nat));
        } else {
            assert(nodes_of(kept@) + flushed(parent@, at as int, run as nat) =~= nodes_of(kept@));
        }
        kept
    }

    /// Whether `node` is a leaf that stands for a bare token.
    fn is_primitive_leaf(node: &SyntaxNode) -> (primitive: bool)
        ensures
            primitive == is_primitive(node@),
    {
        node.children.len() == 0 && (same_text(node.kind.as_str(), "identifier") || same_text(
            node.kind.as_str(),
            "type_identifier",
        ) || same_text(node.kind.as_str(), "number_literal") || same_text(
            node.kind.as_str(),
            "ERROR",
        ))
    }

    /// Whether `node` is valid: a declaration is only with a terminator
    /// among its children that stands in the source.
    fn current_node_valid(node: &SyntaxNode) -> (valid: bool)
        ensures
            valid == is_valid(node@),
    {
        if !same_text(node.kind.as_str(), "declaration") {
            return true;
        }
        let mut at: usize = 0;
        while at < node.children.len()
            invariant
                at <= node.children.len(),
                forall|i: int| 0 <= i < at ==> !is_terminator(#[trigger] node@.children[i]),
            decreases node.children.len() - at,
        {
            let child = &node.children[at];
            proof {
                node.view_of_children();
            }
            if same_text(child.kind.as_str(), ";") && !child.missing {
                assert(is_terminator(node@.children[at as int]));
                return true;
            }
            at += 1;
        }
        proof {
            node.view_of_children();
        }
        false
    }
}

} // verus!
