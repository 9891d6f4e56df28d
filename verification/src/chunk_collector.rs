//! Chunks: the byte ranges of a code fragment that are highlighted as a
//! unit, sorted and merged where they touch.
use crate::heuristics::{filtered, nodes_of, Heuristics};
use crate::syntax::{Shape, SyntaxNode};
use vstd::prelude::*;

verus! {

/// A half-open byte range, `(start, end)`.
pub type Chunk = (usize, usize);

/// The number of leading chunks of `chunks` that start at `key` or before.
/// In a list sorted by start, a chunk that starts at `key` goes there to
/// stand behind every chunk that starts no later.
pub open spec fn upper_bound(chunks: Seq<Chunk>, key: usize) -> int
    decreases chunks.len(),
{
    if chunks.len() > 0 && chunks[0].0 <= key {
        1 + upper_bound(chunks.drop_first(), key)
    } else {
        0
    }
}

/// `chunks` sorted by start; chunks with the same start keep their order.
pub open spec fn sorted_by_start(chunks: Seq<Chunk>) -> Seq<Chunk>
    decreases chunks.len(),
{
    if chunks.len() == 0 {
        chunks
    } else {
        let sorted = sorted_by_start(chunks.drop_last());
        sorted.insert(upper_bound(sorted, chunks.last().0), chunks.last())
    }
}

/// Whether `next` starts within one byte of the end of `current`.
pub open spec fn touches(current: Chunk, next: Chunk) -> bool {
    next.0 <= current.1 + 1
}

/// `current` extended to take in `next`.
pub open spec fn joined(current: Chunk, next: Chunk) -> Chunk {
    (
        current.0,
        if current.1 >= next.1 {
            current.1
        } else {
            next.1
        },
    )
}

/// The chunks that a scan of `chunks` from index `at` yields, with
/// `current` as the running chunk: a chunk that touches the running chunk
/// is joined to it, any other closes it and becomes the running chunk.
pub open spec fn merged_from(chunks: Seq<Chunk>, at: int, current: Chunk) -> Seq<Chunk>
    decreases chunks.len() - at,
{
    if at < 0 || at >= chunks.len() {
        seq![current]
    } else if touches(current, chunks[at]) {
        merged_from(chunks, at + 1, joined(current, chunks[at]))
    } else {
        seq![current] + merged_from(chunks, at + 1, chunks[at])
    }
}

/// The chunks that one scan of `chunks` yields.
pub open spec fn merged_runs(chunks: Seq<Chunk>) -> Seq<Chunk> {
    if chunks.len() == 0 {
        chunks
    } else {
        merged_from(chunks, 1, chunks[0])
    }
}

/// `chunks` sorted by start and merged where they touch.
pub open spec fn merged(chunks: Seq<Chunk>) -> Seq<Chunk> {
    merged_runs(sorted_by_start(chunks))
}

/// Whether the starts of `chunks` never decrease.
pub open spec fn ascending(chunks: Seq<Chunk>) -> bool {
    forall|i: int, j: int| 0 <= i <= j < chunks.len() ==> chunks[i].0 <= chunks[j].0
}

/// Whether each chunk ends more than one byte before the next one starts.
pub open spec fn separated(chunks: Seq<Chunk>) -> bool {
    forall|i: int| 0 <= i < chunks.len() - 1 ==> chunks[i].1 + 1 < (#[trigger] chunks[i + 1]).0
}

/// The upper bound lies within the list; every chunk before it starts at
/// the key or before, and the chunk at it starts later.
pub proof fn upper_bound_bounds(chunks: Seq<Chunk>, key: usize)
    ensures
        0 <= upper_bound(chunks, key) <= chunks.len(),
        forall|i: int| 0 <= i < upper_bound(chunks, key) ==> chunks[i].0 <= key,
        upper_bound(chunks, key) < chunks.len() ==> chunks[upper_bound(chunks, key)].0 > key,
    decreases chunks.len(),
{
    if chunks.len() > 0 && chunks[0].0 <= key {
        let rest = chunks.drop_first();
        upper_bound_bounds(rest, key);
        assert forall|i: int| 0 <= i < upper_bound(chunks, key) implies chunks[i].0 <= key by {
            if i > 0 {
                assert(chunks[i] == rest[i - 1]);
            }
        }
        if upper_bound(chunks, key) < chunks.len() {
            assert(chunks[upper_bound(chunks, key)] == rest[upper_bound(rest, key)]);
        }
    }
}

/// In an ascending list every chunk behind the upper bound starts later
/// than the key.
proof fn upper_bound_splits(chunks: Seq<Chunk>, key: usize)
    requires
        ascending(chunks),
    ensures
        forall|i: int| upper_bound(chunks, key) <= i < chunks.len() ==> chunks[i].0 > key,
{
    upper_bound_bounds(chunks, key);
}

/// Sorting keeps the chunks and puts their starts in ascending order.
pub proof fn sorted_by_start_sorts(chunks: Seq<Chunk>)
    ensures
        ascending(sorted_by_start(chunks)),
        sorted_by_start(chunks).len() == chunks.len(),
        sorted_by_start(chunks).to_multiset() == chunks.to_multiset(),
    decreases chunks.len(),
{
    if chunks.len() == 0 {
    } else {
        let init = chunks.drop_last();
        let sorted = sorted_by_start(init);
        let last = chunks.last();
        let at = upper_bound(sorted, last.0);
        sorted_by_start_sorts(init);
        upper_bound_bounds(sorted, last.0);
        upper_bound_splits(sorted, last.0);
        let out = sorted.insert(at, last);
        assert forall|i: int, j: int| 0 <= i <= j < out.len() implies out[i].0 <= out[j].0 by {
            if i < at && j > at {
                assert(out[i] == sorted[i] && out[j] == sorted[j - 1]);
            } else if i > at {
                assert(out[i] == sorted[i - 1] && out[j] == sorted[j - 1]);
            }
        }
        vstd::seq_lib::to_multiset_insert(sorted, at, last);
        assert(chunks =~= init.push(last));
        init.to_multiset_ensures();
    }
}

/// A list whose starts ascend is sorted already.
pub proof fn ascending_is_sorted(chunks: Seq<Chunk>)
    requires
        ascending(chunks),
    ensures
        sorted_by_start(chunks) == chunks,
    decreases chunks.len(),
{
    if chunks.len() > 0 {
        let init = chunks.drop_last();
        ascending_is_sorted(init);
        upper_bound_bounds(init, chunks.last().0);
        assert(upper_bound(init, chunks.last().0) == init.len()) by {
            if upper_bound(init, chunks.last().0) < init.len() {
                let at = upper_bound(init, chunks.last().0);
                assert(init[at] == chunks[at]);
            }
        }
        assert(init.insert(init.len() as int, chunks.last()) =~= chunks);
    }
}

/// What a scan yields starts with the start of the running chunk, and is
/// ascending and separated when the scanned chunks ascend from the running
/// chunk on.
proof fn merged_from_is_separated(chunks: Seq<Chunk>, at: int, current: Chunk)
    requires
        0 <= at <= chunks.len(),
        ascending(chunks),
        forall|i: int| at <= i < chunks.len() ==> current.0 <= chunks[i].0,
    ensures
        merged_from(chunks, at, current).len() >= 1,
        merged_from(chunks, at, current)[0].0 == current.0,
        merged_from(chunks, at, current)[0].1 >= current.1,
        ascending(merged_from(chunks, at, current)),
        separated(merged_from(chunks, at, current)),
    decreases chunks.len() - at,
{
    if at >= chunks.len() {
    } else if touches(current, chunks[at]) {
        merged_from_is_separated(chunks, at + 1, joined(current, chunks[at]));
    } else {
        let rest = merged_from(chunks, at + 1, chunks[at]);
        merged_from_is_separated(chunks, at + 1, chunks[at]);
        let out = seq![current] + rest;
        assert forall|i: int, j: int| 0 <= i <= j < out.len() implies out[i].0 <= out[j].0 by {
            if i == 0 && j > 0 {
                assert(out[j] == rest[j - 1]);
                assert(rest[0].0 <= rest[j - 1].0);
            } else if i > 0 {
                assert(out[i] == rest[i - 1] && out[j] == rest[j - 1]);
            }
        }
        assert forall|i: int| 0 <= i < out.len() - 1 implies out[i].1 + 1 < (
        #[trigger] out[i + 1]).0 by {
            if i > 0 {
                assert(out[i] == rest[i - 1] && out[i + 1] == rest[i - 1 + 1]);
                assert(rest[i - 1].1 + 1 < rest[i - 1 + 1].0);
            } else {
                assert(out[1] == rest[0]);
            }
        }
    }
}

/// A scan of separated chunks changes nothing.
proof fn merged_from_keeps_separated(chunks: Seq<Chunk>, at: int)
    requires
        1 <= at <= chunks.len(),
        separated(chunks),
    ensures
        merged_from(chunks, at, chunks[at - 1]) == chunks.skip(at - 1),
    decreases chunks.len() - at,
{
    if at < chunks.len() {
        assert(chunks[at - 1].1 + 1 < chunks[at - 1 + 1].0);
        merged_from_keeps_separated(chunks, at + 1);
        assert(seq![chunks[at - 1]] + chunks.skip(at) =~= chunks.skip(at - 1));
    } else {
        assert(seq![chunks[at - 1]] =~= chunks.skip(at - 1));
    }
}

/// Merged chunks are sorted by start, and no two of them overlap or touch:
/// each ends more than one byte before any later one starts.
pub proof fn merged_is_sorted_and_disjoint(chunks: Seq<Chunk>)
    ensures
        ascending(merged(chunks)),
        separated(merged(chunks)),
        forall|i: int, j: int|
            0 <= i < j < merged(chunks).len() ==> merged(chunks)[i].1 + 1 < merged(chunks)[j].0,
        chunks.len() == 0 <==> merged(chunks).len() == 0,
{
    let sorted = sorted_by_start(chunks);
    sorted_by_start_sorts(chunks);
    if sorted.len() > 0 {
        merged_from_is_separated(sorted, 1, sorted[0]);
    }
    let out = merged(chunks);
    assert forall|i: int, j: int| 0 <= i < j < out.len() implies out[i].1 + 1 < out[j].0 by {
        assert(out[i].1 + 1 < out[i + 1].0);
        assert(out[i + 1].0 <= out[j].0);
    }
}

/// A list that is ascending and separated is merged already.
pub proof fn merged_keeps_merged(chunks: Seq<Chunk>)
    requires
        ascending(chunks),
        separated(chunks),
    ensures
        merged(chunks) == chunks,
{
    ascending_is_sorted(chunks);
    if chunks.len() > 0 {
        merged_from_keeps_separated(chunks, 1);
        assert(chunks.skip(0) =~= chunks);
    }
}

/// Merging is idempotent: merging a merged list gives that list back.
pub proof fn merged_is_idempotent(chunks: Seq<Chunk>)
    ensures
        merged(merged(chunks)) == merged(chunks),
{
    merged_is_sorted_and_disjoint(chunks);
    merged_keeps_merged(merged(chunks));
}

/// Whether one of `chunks` spans `chunk`.
pub open spec fn covers(chunks: Seq<Chunk>, chunk: Chunk) -> bool {
    exists|k: int| 0 <= k < chunks.len() && (#[trigger] chunks[k]).0 <= chunk.0 && chunk.1 <= chunks[k].1
}

/// What a scan yields covers the running chunk and every chunk that is
/// still to come.
proof fn merged_from_covers(chunks: Seq<Chunk>, at: int, current: Chunk)
    requires
        0 <= at <= chunks.len(),
        forall|i: int| at <= i < chunks.len() ==> current.0 <= chunks[i].0,
        ascending(chunks),
    ensures
        covers(merged_from(chunks, at, current), current),
        forall|i: int| at <= i < chunks.len() ==> covers(merged_from(chunks, at, current), chunks[i]),
    decreases chunks.len() - at,
{
    let out = merged_from(chunks, at, current);
    if at >= chunks.len() {
        assert(out[0] == current);
    } else if touches(current, chunks[at]) {
        let wider = joined(current, chunks[at]);
        merged_from_covers(chunks, at + 1, wider);
        let k = choose|k: int| 0 <= k < out.len() && (#[trigger] out[k]).0 <= wider.0 && wider.1 <= out[k].1;
        assert(out[k].0 <= current.0 && current.1 <= out[k].1);
        assert(out[k].0 <= chunks[at].0 && chunks[at].1 <= out[k].1);
    } else {
        let rest = merged_from(chunks, at + 1, chunks[at]);
        merged_from_covers(chunks, at + 1, chunks[at]);
        assert(out[0] == current);
        assert forall|i: int| at <= i < chunks.len() implies covers(out, chunks[i]) by {
            let k = choose|k: int| 0 <= k < rest.len() && (#[trigger] rest[k]).0 <= chunks[i].0 && chunks[i].1 <= rest[k].1;
            assert(out[k + 1] == rest[k]);
        }
    }
}

/// Merging loses nothing: every chunk lies within one of the merged
/// chunks.
pub proof fn merged_covers_input(chunks: Seq<Chunk>, i: int)
    requires
        0 <= i < chunks.len(),
    ensures
        covers(merged(chunks), chunks[i]),
{
    let sorted = sorted_by_start(chunks);
    sorted_by_start_sorts(chunks);
    chunks.to_multiset_ensures();
    sorted.to_multiset_ensures();
    assert(chunks.contains(chunks[i]));
    assert(chunks.to_multiset().count(chunks[i]) > 0);
    assert(sorted.to_multiset().count(chunks[i]) > 0);
    assert(sorted.contains(chunks[i]));
    let j = choose|j: int| 0 <= j < sorted.len() && sorted[j] == chunks[i];
    merged_from_covers(sorted, 1, sorted[0]);
}

/// The upper bound is the one place with no later start before it and no
/// earlier or equal start at it.
proof fn upper_bound_is(chunks: Seq<Chunk>, key: usize, at: int)
    requires
        0 <= at <= chunks.len(),
        forall|i: int| 0 <= i < at ==> chunks[i].0 <= key,
        at < chunks.len() ==> chunks[at].0 > key,
    ensures
        upper_bound(chunks, key) == at,
    decreases chunks.len(),
{
    if at > 0 {
        let rest = chunks.drop_first();
        assert forall|i: int| 0 <= i < at - 1 implies rest[i].0 <= key by {
            assert(rest[i] == chunks[i + 1]);
        }
        upper_bound_is(rest, key, at - 1);
    }
}

/// Sorts chunks by start, keeping the order of chunks with the same start.
fn sort_by_start(chunks: &Vec<Chunk>) -> (sorted: Vec<Chunk>)
    ensures
        sorted@ == sorted_by_start(chunks@),
{
    let mut sorted: Vec<Chunk> = Vec::with_capacity(chunks.len());
    let mut taken: usize = 0;
    assert(chunks@.take(0) =~= Seq::<Chunk>::empty());
    while taken < chunks.len()
        invariant
            taken <= chunks.len(),
            sorted@ == sorted_by_start(chunks@.take(taken as int)),
        decreases chunks.len() - taken,
    {
        let chunk = chunks[taken];
        let mut at: usize = sorted.len();
        proof {
            sorted_by_start_sorts(chunks@.take(taken as int));
        }
        while at > 0 && sorted[at - 1].0 > chunk.0
            invariant
                at <= sorted.len(),
                ascending(sorted@),
                forall|i: int| at <= i < sorted.len() ==> sorted[i].0 > chunk.0,
            decreases at,
        {
            at -= 1;
        }
        proof {
            upper_bound_is(sorted@, chunk.0, at as int);
            assert(chunks@.take(taken + 1).drop_last() =~= chunks@.take(taken as int));
        }
        sorted.insert(at, chunk);
        taken += 1;
    }
    assert(chunks@.take(taken as int) =~= chunks@);
    sorted
}

/// The byte ranges of `nodes`, in order.
pub open spec fn ranges_of(nodes: Seq<Shape>) -> Seq<Chunk> {
    nodes.map_values(|node: Shape| node.range())
}

/// The chunks under `node` before they are merged: the range of each node
/// that is kept under it, or the range of `node` itself when none is kept.
pub open spec fn valid_chunks(node: Shape) -> Seq<Chunk> {
    if filtered(node).len() == 0 {
        seq![node.range()]
    } else {
        ranges_of(filtered(node))
    }
}

/// Collects the chunks of a fragment from its syntax tree.
pub struct ChunkCollector;

impl ChunkCollector {
    /// The chunks of the fragment `source` with the syntax tree `root`
    /// that can be highlighted: sorted, and merged where they touch.
    pub fn collect(root: &SyntaxNode, source: &str) -> (chunks: Vec<Chunk>)
        ensures
            chunks@ == merged(valid_chunks(root@)),
            ascending(chunks@),
            separated(chunks@),
    {
        let mut spans = Self::collect_valid_chunks(root, source);
        Self::merge_adjacent(&mut spans);
        spans
    }

    /// The range of each node that is kept under `node`, or that of `node`
    /// when none is kept.
    fn collect_valid_chunks(node: &SyntaxNode, source: &str) -> (spans: Vec<Chunk>)
        ensures
            spans@ == valid_chunks(node@),
    {
        let flat_nodes = Heuristics::filter_children(node, source);
        let mut spans: Vec<Chunk> = Vec::new();
        if flat_nodes.len() == 0 {
            spans.push((node.start, node.end));
            assert(spans@ =~= seq![node@.range()]);
            return spans;
        }
        let mut at: usize = 0;
        while at < flat_nodes.len()
            invariant
                at <= flat_nodes.len(),
                spans@ == ranges_of(nodes_of(flat_nodes@)).take(at as int),
            decreases flat_nodes.len() - at,
        {
            let child = flat_nodes[at];
            spans.push((child.start, child.end));
            assert(spans@ =~= ranges_of(nodes_of(flat_nodes@)).take(at + 1));
            at += 1;
        }
        assert(spans@ =~= ranges_of(nodes_of(flat_nodes@)));
        spans
    }

    /// Sorts `spans` by start and merges each chunk into the one before it
    /// when it starts within one byte of its end.
    pub fn merge_adjacent(spans: &mut Vec<Chunk>)
        ensures
            final(spans)@ == merged(old(spans)@),
            ascending(final(spans)@),
            separated(final(spans)@),
    {
        proof {
            merged_is_sorted_and_disjoint(spans@);
        }
        if spans.len() == 0 {
            return ;
        }
        let sorted = sort_by_start(spans);
        let mut out: Vec<Chunk> = Vec::with_capacity(sorted.len());
        let mut current: Chunk = sorted[0];
        let mut at: usize = 1;
        proof {
            sorted_by_start_sorts(spans@);
        }
        while at < sorted.len()
            invariant
                1 <= at <= sorted.len(),
                merged_runs(sorted@) == out@ + merged_from(sorted@, at as int, current),
            decreases sorted.len() - at,
        {
            let next = sorted[at];
            if next.0 <= current.1 || next.0 - current.1 == 1 {
                if next.1 > current.1 {
                    current.1 = next.1;
                }
            } else {
                assert(out@.push(current) + merged_from(sorted@, at + 1, next) =~= out@ + (
                seq![current] + merged_from(sorted@, at + 1, next)));
                out.push(current);
                current = next;
            }
            at += 1;
        }
        assert(out@.push(current) =~= out@ + seq![current]);
        out.push(current);
        *spans = out;
    }
}

} // verus!
