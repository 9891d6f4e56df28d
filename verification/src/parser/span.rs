//! Grouping of line records into spans: maximal runs of consecutive lines
//! of one quoting layer and one kind.
use crate::parser::line::{are_records_of, records_partition_input, CodeKind, Line, LineKind, LineView};
use vstd::prelude::*;

verus! {

/// A run of consecutive lines that share their quoting layer and their
/// kind. `start` and `end` are byte offsets; a `Code` span has the sign of
/// its first line.
#[derive(Debug, Clone)]
pub enum Span<'a> {
    Text { start: usize, end: usize, quoting_layer: usize, lines: &'a [Line<'a>] },
    DiffHeader { start: usize, end: usize, quoting_layer: usize, lines: &'a [Line<'a>] },
    DiffMetadata { start: usize, end: usize, quoting_layer: usize, lines: &'a [Line<'a>] },
    HunkHeader { start: usize, end: usize, quoting_layer: usize, lines: &'a [Line<'a>] },
    Code { start: usize, end: usize, quoting_layer: usize, kind: CodeKind, lines: &'a [Line<'a>] },
}

impl<'a> Span<'a> {
    /// The kind of the lines of the span.
    pub open spec fn kind(&self) -> LineKind {
        match self {
            Span::Text { .. } => LineKind::Text,
            Span::DiffHeader { .. } => LineKind::DiffHeader,
            Span::DiffMetadata { .. } => LineKind::DiffMetadata,
            Span::HunkHeader { .. } => LineKind::HunkHeader,
            Span::Code { .. } => LineKind::Code,
        }
    }

    /// The byte offset at which the span starts.
    pub open spec fn start(&self) -> nat {
        match self {
            Span::Text { start, .. } => *start as nat,
            Span::DiffHeader { start, .. } => *start as nat,
            Span::DiffMetadata { start, .. } => *start as nat,
            Span::HunkHeader { start, .. } => *start as nat,
            Span::Code { start, .. } => *start as nat,
        }
    }

    /// The byte offset just past the span.
    pub open spec fn end(&self) -> nat {
        match self {
            Span::Text { end, .. } => *end as nat,
            Span::DiffHeader { end, .. } => *end as nat,
            Span::DiffMetadata { end, .. } => *end as nat,
            Span::HunkHeader { end, .. } => *end as nat,
            Span::Code { end, .. } => *end as nat,
        }
    }

    /// The quoting layer of the lines of the span.
    pub open spec fn quoting_layer(&self) -> nat {
        match self {
            Span::Text { quoting_layer, .. } => *quoting_layer as nat,
            Span::DiffHeader { quoting_layer, .. } => *quoting_layer as nat,
            Span::DiffMetadata { quoting_layer, .. } => *quoting_layer as nat,
            Span::HunkHeader { quoting_layer, .. } => *quoting_layer as nat,
            Span::Code { quoting_layer, .. } => *quoting_layer as nat,
        }
    }

    /// The lines of the span.
    pub open spec fn lines(&self) -> Seq<Line<'a>> {
        match self {
            Span::Text { lines, .. } => lines@,
            Span::DiffHeader { lines, .. } => lines@,
            Span::DiffMetadata { lines, .. } => lines@,
            Span::HunkHeader { lines, .. } => lines@,
            Span::Code { lines, .. } => lines@,
        }
    }

    /// Whether the span carries the sign that a `Code` span with the first
    /// line `first` must carry. Spans of other kinds carry none.
    pub open spec fn has_sign_of(&self, first: LineView) -> bool {
        match (self, first) {
            (Span::Code { kind, .. }, LineView::Code { kind: sign, .. }) => *kind == sign,
            _ => true,
        }
    }

    /// The lines of the span.
    pub fn get_lines(&self) -> (lines: &'a [Line<'a>])
        ensures
            lines@ == self.lines(),
    {
        match self {
            Span::Text { lines, .. } => lines,
            Span::DiffHeader { lines, .. } => lines,
            Span::DiffMetadata { lines, .. } => lines,
            Span::HunkHeader { lines, .. } => lines,
            Span::Code { lines, .. } => lines,
        }
    }
}

/// Whether two lines may stand in one span.
pub open spec fn alike(a: LineView, b: LineView) -> bool {
    a.quoting_layer() == b.quoting_layer() && a.kind() == b.kind()
}

/// The number of lines in the first `k` spans.
pub open spec fn covered(spans: Seq<Span<'_>>, k: int) -> int
    decreases k,
{
    if k <= 0 {
        0
    } else {
        covered(spans, k - 1) + spans[k - 1].lines().len()
    }
}

/// Whether `span` is the maximal run of `lines` that starts at `first`.
pub open spec fn is_run_from(span: Span<'_>, lines: Seq<Line<'_>>, first: int) -> bool {
    let count = span.lines().len() as int;
    &&& 0 <= first
    &&& 0 < count
    &&& first + count <= lines.len()
    &&& span.lines() == lines.subrange(first, first + count)
    &&& forall|i: int| first <= i < first + count ==> alike(lines[first]@, #[trigger] lines[i]@)
    &&& first + count < lines.len() ==> !alike(lines[first]@, lines[first + count]@)
    &&& span.kind() == lines[first]@.kind()
    &&& span.quoting_layer() == lines[first]@.quoting_layer()
    &&& span.has_sign_of(lines[first]@)
    &&& span.start() == lines[first]@.offset()
    &&& span.end() == lines[first + count - 1]@.end()
}

/// Whether `spans` are the spans of `lines`: each span is a maximal run,
/// each run starts where the one before it ends, and together they take
/// every line.
pub open spec fn are_spans_of(spans: Seq<Span<'_>>, lines: Seq<Line<'_>>) -> bool {
    &&& covered(spans, spans.len() as int) == lines.len()
    &&& forall|k: int|
        0 <= k < spans.len() ==> is_run_from(#[trigger] spans[k], lines, covered(spans, k))
}

/// The number of lines in the first `k` spans depends on these spans only.
proof fn covered_of_prefix(a: Seq<Span<'_>>, b: Seq<Span<'_>>, k: int)
    requires
        0 <= k <= a.len(),
        k <= b.len(),
        forall|i: int| 0 <= i < k ==> a[i] == b[i],
    ensures
        covered(a, k) == covered(b, k),
    decreases k,
{
    if k > 0 {
        covered_of_prefix(a, b, k - 1);
    }
}

/// The spans before span `k` hold no more lines than those before a later
/// one, and fewer when every span holds a line.
pub proof fn covered_is_monotonic(spans: Seq<Span<'_>>, j: int, k: int)
    requires
        0 <= j <= k <= spans.len(),
    ensures
        covered(spans, j) <= covered(spans, k),
        (forall|i: int| 0 <= i < spans.len() ==> (#[trigger] spans[i]).lines().len() > 0)
            ==> covered(spans, j) + (k - j) <= covered(spans, k),
    decreases k - j,
{
    if j < k {
        covered_is_monotonic(spans, j, k - 1);
    }
}

/// Creates the spans of `lines`.
pub fn build_spans<'a>(lines: &'a [Line<'a>]) -> (spans: Vec<Span<'a>>)
    requires
        forall|i: int| 0 <= i < lines.len() ==> (#[trigger] lines[i]).fits(),
    ensures
        are_spans_of(spans@, lines@),
{
    let mut spans: Vec<Span<'a>> = Vec::new();
    let mut first: usize = 0;
    while first < lines.len()
        invariant
            first <= lines.len(),
            forall|j: int| 0 <= j < lines.len() ==> (#[trigger] lines[j]).fits(),
            covered(spans@, spans.len() as int) == first,
            forall|k: int|
                0 <= k < spans.len() ==> is_run_from(
                    #[trigger] spans[k],
                    lines@,
                    covered(spans@, k),
                ),
        decreases lines.len() - first,
    {
        let mut stop: usize = first + 1;
        while stop < lines.len() && lines[first].same_quoting_layer(&lines[stop])
            && lines[first].same_variant(&lines[stop])
            invariant
                first < stop <= lines.len(),
                forall|j: int|
                    first <= j < stop ==> alike(lines[first as int]@, #[trigger] lines[j]@),
            decreases lines.len() - stop,
        {
            stop += 1;
        }
        let start = lines[first].get_offset();
        let end = lines[stop - 1].get_end_offset();
        let quoting_layer = lines[first].get_quoting_layer();
        let run = &lines[first..stop];
        let span = match &lines[first] {
            Line::Text { .. } => Span::Text { start, end, quoting_layer, lines: run },
            Line::DiffHeader { .. } => Span::DiffHeader { start, end, quoting_layer, lines: run },
            Line::DiffMetadata { .. } => Span::DiffMetadata {
                start,
                end,
                quoting_layer,
                lines: run,
            },
            Line::HunkHeader { .. } => Span::HunkHeader { start, end, quoting_layer, lines: run },
            Line::Code { kind, .. } => Span::Code {
                start,
                end,
                quoting_layer,
                kind: *kind,
                lines: run,
            },
        };
        let ghost before = spans@;
        spans.push(span);
        proof {
            let n = before.len() as int;
            assert forall|k: int| 0 <= k <= n implies covered(spans@, k) == covered(before, k) by {
                covered_of_prefix(spans@, before, k);
            }
            assert(is_run_from(spans@[n], lines@, first as int));
            assert forall|k: int| 0 <= k < spans.len() implies is_run_from(
                #[trigger] spans[k],
                lines@,
                covered(spans@, k),
            ) by {
                if k < n {
                    assert(spans[k] == before[k]);
                }
            }
        }
        first = stop;
    }
    spans
}

/// Whether line number `i` stands in span number `k`.
pub open spec fn holds_line(spans: Seq<Span<'_>>, k: int, i: int) -> bool {
    0 <= k < spans.len() && covered(spans, k) <= i < covered(spans, k + 1)
}

/// Every line stands in exactly one span.
pub proof fn every_line_in_one_span(spans: Seq<Span<'_>>, lines: Seq<Line<'_>>, i: int)
    requires
        are_spans_of(spans, lines),
        0 <= i < lines.len(),
    ensures
        exists|k: int| holds_line(spans, k, i),
        forall|j: int, k: int| holds_line(spans, j, i) && holds_line(spans, k, i) ==> j == k,
{
    span_of_line(spans, i, spans.len() as int);
    assert forall|j: int, k: int| holds_line(spans, j, i) && holds_line(spans, k, i) implies j
        == k by {
        if j < k {
            covered_is_monotonic(spans, j + 1, k);
        } else if k < j {
            covered_is_monotonic(spans, k + 1, j);
        }
    }
}

/// A line before the end of the first `upto` spans stands in one of them.
proof fn span_of_line(spans: Seq<Span<'_>>, i: int, upto: int)
    requires
        0 <= upto <= spans.len(),
        0 <= i < covered(spans, upto),
    ensures
        exists|k: int| holds_line(spans, k, i),
    decreases upto,
{
    if upto > 0 {
        if i < covered(spans, upto - 1) {
            span_of_line(spans, i, upto - 1);
        } else {
            assert(holds_line(spans, upto - 1, i));
        }
    }
}

/// The spans of the records of a buffer partition it: the first span
/// starts at offset zero, each starts where the one before it ends, and the
/// last ends with the buffer.
pub proof fn spans_partition_input(spans: Seq<Span<'_>>, lines: Seq<Line<'_>>, bytes: Seq<u8>)
    requires
        are_records_of(lines, bytes),
        are_spans_of(spans, lines),
    ensures
        spans.len() == 0 <==> bytes.len() == 0,
        spans.len() > 0 ==> spans[0].start() == 0 && spans.last().end() == bytes.len(),
        forall|k: int| 0 <= k < spans.len() - 1 ==> (#[trigger] spans[k]).end() == spans[k + 1].start(),
        forall|k: int| 0 <= k < spans.len() ==> (#[trigger] spans[k]).start() < spans[k].end(),
{
    records_partition_input(lines, bytes);
    assert forall|k: int| 0 <= k < spans.len() implies {
        &&& (#[trigger] spans[k]).start() == lines[covered(spans, k)]@.offset()
        &&& spans[k].end() == lines[covered(spans, k + 1) - 1]@.end()
        &&& covered(spans, k) < covered(spans, k + 1) <= lines.len()
        &&& spans[k].start() < spans[k].end()
    } by {
        assert(is_run_from(spans[k], lines, covered(spans, k)));
        contiguous_lines_ascend(lines, bytes, covered(spans, k), covered(spans, k + 1) - 1);
    }
    if spans.len() > 0 {
        assert(spans.last() == spans[spans.len() - 1]);
        assert(lines.last() == lines[lines.len() - 1]);
        assert(covered(spans, 0) == 0);
    }
    assert forall|k: int| 0 <= k < spans.len() - 1 implies (#[trigger] spans[k]).end() == spans[k
        + 1].start() by {
        let last = covered(spans, k + 1) - 1;
        assert(is_run_from(spans[k + 1], lines, covered(spans, k + 1)));
        assert(lines[last]@.end() == lines[last + 1]@.offset());
    }
}

/// A record ends after an earlier or the same record starts.
proof fn contiguous_lines_ascend(lines: Seq<Line<'_>>, bytes: Seq<u8>, i: int, j: int)
    requires
        are_records_of(lines, bytes),
        0 <= i <= j < lines.len(),
    ensures
        lines[i]@.offset() < lines[j]@.end(),
    decreases j - i,
{
    records_partition_input(lines, bytes);
    if i < j {
        contiguous_lines_ascend(lines, bytes, i, j - 1);
        assert(lines[j - 1]@.end() == lines[j - 1 + 1]@.offset());
    }
}

} // verus!
