//! The nesting depth of reply markers at the start of a line.
use crate::text::{blank, chars_of, is_blank, skip_whitespace};
use vstd::prelude::*;

verus! {

/// A character that may stand in the quoting prefix of a line: a reply
/// marker or a blank.
pub open spec fn is_quoting(c: char) -> bool {
    c == '>' || is_blank(c)
}

/// The length of the quoting prefix: the longest prefix of `line` made of
/// reply markers and blanks only.
pub open spec fn quote_prefix_len(line: Seq<char>) -> nat
    decreases line.len(),
{
    if line.len() > 0 && is_quoting(line[0]) {
        1 + quote_prefix_len(line.drop_first())
    } else {
        0
    }
}

/// The quoting depth of `line`, as the scan computes it: every reply marker
/// met before the first character that is neither a marker nor a blank adds
/// one.
pub open spec fn quote_depth(line: Seq<char>) -> nat
    decreases line.len(),
{
    if line.len() == 0 {
        0
    } else if line[0] == '>' {
        1 + quote_depth(line.drop_first())
    } else if is_blank(line[0]) {
        quote_depth(line.drop_first())
    } else {
        0
    }
}

/// The number of reply markers among the first `n` characters of `line`.
pub open spec fn markers_within(line: Seq<char>, n: int) -> nat
    decreases n,
{
    if n <= 0 || n > line.len() {
        0
    } else {
        markers_within(line, n - 1) + if line[n - 1] == '>' {
            1nat
        } else {
            0nat
        }
    }
}

/// The number of reply markers in the quoting prefix of `line`.
pub open spec fn leading_markers(line: Seq<char>) -> nat {
    markers_within(line, quote_prefix_len(line) as int)
}

/// What is left of `line` once its quoting prefix and the whitespace after
/// it are taken away.
pub open spec fn stripped(line: Seq<char>) -> Seq<char> {
    line.skip(skip_whitespace(line, quote_prefix_len(line) as int))
}

/// The quoting prefix is the unique prefix of markers and blanks that cannot
/// be extended.
pub proof fn quote_prefix_is_maximal(line: Seq<char>)
    ensures
        quote_prefix_len(line) <= line.len(),
        forall|i: int| 0 <= i < quote_prefix_len(line) ==> is_quoting(#[trigger] line[i]),
        quote_prefix_len(line) < line.len() ==> !is_quoting(line[quote_prefix_len(line) as int]),
    decreases line.len(),
{
    if line.len() > 0 && is_quoting(line[0]) {
        let rest = line.drop_first();
        quote_prefix_is_maximal(rest);
        assert forall|i: int| 0 <= i < quote_prefix_len(line) implies is_quoting(
            #[trigger] line[i],
        ) by {
            if i > 0 {
                assert(line[i] == rest[i - 1]);
            }
        }
        if quote_prefix_len(line) < line.len() {
            assert(line[quote_prefix_len(line) as int] == rest[quote_prefix_len(rest) as int]);
        }
    }
}

/// Prefix length and depth of a line, from those of its suffix at `i`, when
/// everything before `i` is a marker or a blank.
proof fn quoting_resumes(line: Seq<char>, i: int)
    requires
        0 <= i <= line.len(),
        forall|j: int| 0 <= j < i ==> is_quoting(#[trigger] line[j]),
    ensures
        quote_prefix_len(line) == i + quote_prefix_len(line.skip(i)),
        quote_depth(line) == markers_within(line, i) + quote_depth(line.skip(i)),
    decreases i,
{
    if i == 0 {
        assert(line.skip(0) =~= line);
    } else {
        quoting_resumes(line, i - 1);
        let before = line.skip(i - 1);
        assert(before.len() > 0 && before[0] == line[i - 1]);
        assert(before.drop_first() =~= line.skip(i));
    }
}

/// The depth that the scan computes is the number of reply markers in the
/// quoting prefix.
pub proof fn quote_depth_counts_leading_markers(line: Seq<char>)
    ensures
        quote_depth(line) == leading_markers(line),
        quote_depth(line) <= quote_prefix_len(line) <= line.len(),
{
    quote_prefix_is_maximal(line);
    let p = quote_prefix_len(line) as int;
    quoting_resumes(line, p);
    let rest = line.skip(p);
    if rest.len() > 0 {
        assert(rest[0] == line[p]);
    }
    markers_within_bound(line, p);
}

/// There are no more markers among characters than characters.
proof fn markers_within_bound(line: Seq<char>, n: int)
    requires
        0 <= n <= line.len(),
    ensures
        markers_within(line, n) <= n,
    decreases n,
{
    if n > 0 {
        markers_within_bound(line, n - 1);
    }
}

/// The depth is monotonic in the number of leading reply markers: a line
/// with no more of them than another is quoted no deeper.
pub proof fn quote_depth_is_monotonic(a: Seq<char>, b: Seq<char>)
    requires
        leading_markers(a) <= leading_markers(b),
    ensures
        0 <= quote_depth(a) <= quote_depth(b),
{
    quote_depth_counts_leading_markers(a);
    quote_depth_counts_leading_markers(b);
}

/// One more reply marker in front of a line makes it one level deeper; a
/// blank in front changes nothing.
pub proof fn quote_depth_of_extended(c: char, line: Seq<char>)
    ensures
        c == '>' ==> quote_depth(seq![c] + line) == quote_depth(line) + 1,
        is_blank(c) ==> quote_depth(seq![c] + line) == quote_depth(line),
        !is_quoting(c) ==> quote_depth(seq![c] + line) == 0,
{
    let whole = seq![c] + line;
    assert(whole[0] == c);
    assert(whole.drop_first() =~= line);
}

/// Scans the quoting prefix of `line`: its length and the number of reply
/// markers in it.
pub fn scan_quoting(line: &[char]) -> (r: (usize, usize))
    ensures
        r.0 == quote_prefix_len(line@),
        r.1 == quote_depth(line@),
        r.1 <= r.0 <= line.len(),
{
    let mut i: usize = 0;
    let mut count: usize = 0;
    while i < line.len() && (line[i] == '>' || blank(line[i]))
        invariant
            i <= line.len(),
            count == markers_within(line@, i as int),
            count <= i,
            forall|j: int| 0 <= j < i ==> is_quoting(#[trigger] line@[j]),
        decreases line.len() - i,
    {
        if line[i] == '>' {
            count += 1;
        }
        i += 1;
    }
    proof {
        quoting_resumes(line@, i as int);
        let rest = line@.skip(i as int);
        if rest.len() > 0 {
            assert(rest[0] == line@[i as int]);
        }
    }
    (i, count)
}

/// The quoting depth of a line: the number of reply markers before its
/// first character that is neither a marker nor a blank.
pub fn quoting_layer(line: &str) -> (depth: usize)
    ensures
        depth == quote_depth(line@),
        depth == leading_markers(line@),
{
    let chars = chars_of(line);
    proof {
        quote_depth_counts_leading_markers(line@);
    }
    scan_quoting(chars.as_slice()).1
}

} // verus!
