//! Division of a text buffer into lines, over its bytes.
//!
//! A line ends with a line feed, or with a carriage return and a line feed;
//! the last line may lack a terminator. Each line owns the bytes from its
//! start up to and including its terminator, so the lines of a buffer cover
//! it without gap or overlap.
use vstd::prelude::*;
use vstd::string::*;
use vstd::utf8::*;

verus! {

/// The byte that ends a line.
pub const LINE_FEED: u8 = 0x0A;

/// The byte that may stand before the line feed in a line terminator.
pub const CARRIAGE_RETURN: u8 = 0x0D;

/// The index of the first line feed at or after `from`, or the length of
/// `bytes` when there is none.
pub open spec fn line_feed_at(bytes: Seq<u8>, from: int) -> int
    decreases bytes.len() - from,
{
    if 0 <= from < bytes.len() && bytes[from] != LINE_FEED {
        line_feed_at(bytes, from + 1)
    } else {
        from
    }
}

/// Where the line that starts at `from` ends, its terminator included.
pub open spec fn line_stop(bytes: Seq<u8>, from: int) -> int {
    let feed = line_feed_at(bytes, from);
    if feed < bytes.len() {
        feed + 1
    } else {
        feed
    }
}

/// Where the text of the line that starts at `from` ends, its terminator
/// left out.
pub open spec fn text_stop(bytes: Seq<u8>, from: int) -> int {
    let feed = line_feed_at(bytes, from);
    if from < feed < bytes.len() && bytes[feed - 1] == CARRIAGE_RETURN {
        feed - 1
    } else {
        feed
    }
}

/// Where line number `k` starts, counting from zero. Past the last line it
/// is the length of `bytes`.
pub open spec fn line_start(bytes: Seq<u8>, k: nat) -> int
    decreases k,
{
    if k == 0 {
        0
    } else {
        line_stop(bytes, line_start(bytes, (k - 1) as nat))
    }
}

/// The bytes of the text of line number `k`.
pub open spec fn line_bytes(bytes: Seq<u8>, k: nat) -> Seq<u8> {
    bytes.subrange(line_start(bytes, k), text_stop(bytes, line_start(bytes, k)))
}

/// The characters of the text of line number `k`.
pub open spec fn line_text(bytes: Seq<u8>, k: nat) -> Seq<char> {
    decode_utf8(line_bytes(bytes, k))
}

/// The length in bytes of line number `k`, its terminator included.
pub open spec fn line_length(bytes: Seq<u8>, k: nat) -> int {
    line_start(bytes, k + 1) - line_start(bytes, k)
}

/// The search for a line feed stays within the buffer, passes no line
/// feed, and stops at one or at the end.
pub proof fn line_feed_at_bounds(bytes: Seq<u8>, from: int)
    requires
        0 <= from <= bytes.len(),
    ensures
        from <= line_feed_at(bytes, from) <= bytes.len(),
        forall|i: int| from <= i < line_feed_at(bytes, from) ==> bytes[i] != LINE_FEED,
        line_feed_at(bytes, from) < bytes.len() ==> bytes[line_feed_at(bytes, from)] == LINE_FEED,
    decreases bytes.len() - from,
{
    if from < bytes.len() && bytes[from] != LINE_FEED {
        line_feed_at_bounds(bytes, from + 1);
    }
}

/// A line's text ends within the line, and a line that starts inside the
/// buffer is not empty.
pub proof fn line_stop_bounds(bytes: Seq<u8>, from: int)
    requires
        0 <= from <= bytes.len(),
    ensures
        from <= text_stop(bytes, from) <= line_stop(bytes, from) <= bytes.len(),
        from < bytes.len() ==> from < line_stop(bytes, from),
        line_stop(bytes, from) - text_stop(bytes, from) <= 2,
{
    line_feed_at_bounds(bytes, from);
}

/// Line starts never decrease and stay within the buffer.
pub proof fn line_start_bounds(bytes: Seq<u8>, k: nat)
    ensures
        0 <= line_start(bytes, k) <= line_start(bytes, k + 1) <= bytes.len(),
        line_start(bytes, k) < bytes.len() ==> line_start(bytes, k) < line_start(bytes, k + 1),
    decreases k,
{
    if k > 0 {
        line_start_bounds(bytes, (k - 1) as nat);
    }
    line_stop_bounds(bytes, line_start(bytes, k));
}

/// The lines of a buffer partition it: line `k` covers exactly the bytes
/// between its start and the start of line `k + 1`, and its text and
/// terminator make up these bytes.
pub proof fn lines_cover_buffer(bytes: Seq<u8>, k: nat)
    ensures
        line_start(bytes, 0) == 0,
        line_start(bytes, k) + line_length(bytes, k) == line_start(bytes, k + 1),
        0 <= line_length(bytes, k),
        line_bytes(bytes, k).len() <= line_length(bytes, k) <= line_bytes(bytes, k).len() + 2,
        line_bytes(bytes, k) == bytes.subrange(
            line_start(bytes, k),
            line_start(bytes, k) + line_bytes(bytes, k).len(),
        ),
{
    line_start_bounds(bytes, k);
    line_stop_bounds(bytes, line_start(bytes, k));
}

/// Searching a suffix finds the same line feed as searching the buffer from
/// where the suffix starts.
proof fn line_feed_at_suffix(bytes: Seq<u8>, pos: int, from: int)
    requires
        0 <= pos <= bytes.len(),
        0 <= from <= bytes.len() - pos,
    ensures
        line_feed_at(bytes, pos + from) == pos + line_feed_at(
            bytes.subrange(pos, bytes.len() as int),
            from,
        ),
    decreases bytes.len() - pos - from,
{
    let tail = bytes.subrange(pos, bytes.len() as int);
    if from < tail.len() {
        assert(tail[from] == bytes[pos + from]);
        if tail[from] != LINE_FEED {
            line_feed_at_suffix(bytes, pos, from + 1);
        }
    }
}

/// The first line of a suffix is the line of the buffer that starts where
/// the suffix starts.
pub proof fn first_line_of_suffix(bytes: Seq<u8>, pos: int)
    requires
        0 <= pos <= bytes.len(),
    ensures
        line_stop(bytes, pos) == pos + line_stop(bytes.subrange(pos, bytes.len() as int), 0),
        text_stop(bytes, pos) == pos + text_stop(bytes.subrange(pos, bytes.len() as int), 0),
{
    let tail = bytes.subrange(pos, bytes.len() as int);
    line_feed_at_suffix(bytes, pos, 0);
    line_feed_at_bounds(tail, 0);
    let feed = line_feed_at(tail, 0);
    if 0 < feed < tail.len() {
        assert(tail[feed - 1] == bytes[pos + feed - 1]);
    }
}

/// An ASCII byte at the head of valid UTF-8 is a character of its own.
proof fn boundary_after_ascii_head(bytes: Seq<u8>)
    requires
        valid_utf8(bytes),
        bytes.len() > 0,
        bytes[0] <= 0x7f,
    ensures
        is_char_boundary(bytes, 1),
{
    assert(length_of_first_scalar(bytes) == 1);
    assert(valid_utf8(pop_first_scalar(bytes)));
    assert(is_char_boundary(pop_first_scalar(bytes), 0));
}

/// The first line of `rest`: its text, the number of bytes that the line
/// takes with its terminator, and what follows the line.
pub fn split_line<'a>(rest: &'a str) -> (r: (&'a str, usize, &'a str))
    ensures
        r.0.spec_bytes() == rest.spec_bytes().subrange(0, text_stop(rest.spec_bytes(), 0)),
        r.1 == line_stop(rest.spec_bytes(), 0),
        r.2.spec_bytes() == rest.spec_bytes().subrange(
            line_stop(rest.spec_bytes(), 0),
            rest.spec_bytes().len() as int,
        ),
        r.1 <= rest.spec_bytes().len(),
        rest.spec_bytes().len() > 0 ==> 0 < r.1,
{
    broadcast use group_utf8_lib;

    let bytes = rest.as_bytes();
    let ghost all = rest.spec_bytes();
    let mut feed: usize = 0;
    while feed < bytes.len() && bytes[feed] != LINE_FEED
        invariant
            feed <= bytes.len(),
            bytes@ == all,
            line_feed_at(all, 0) == line_feed_at(all, feed as int),
        decreases bytes.len() - feed,
    {
        feed += 1;
    }
    proof {
        line_feed_at_bounds(all, 0);
        assert(valid_utf8(all));
        if feed < bytes.len() {
            is_char_boundary_iff_not_is_continuation_byte(all, feed as int);
        } else {
            is_char_boundary_start_end_of_seq(all);
        }
    }
    let (head, tail) = rest.split_at(feed);
    if feed == bytes.len() {
        assert(head.spec_bytes() == all.subrange(0, feed as int));
        return (head, feed, tail);
    }
    proof {
        assert(tail.spec_bytes()[0] == all[feed as int]);
        assert(valid_utf8(tail.spec_bytes()));
        boundary_after_ascii_head(tail.spec_bytes());
    }
    let (_, next) = tail.split_at(1);
    assert(next.spec_bytes() =~= all.subrange(feed + 1, all.len() as int));
    if feed > 0 && bytes[feed - 1] == CARRIAGE_RETURN {
        proof {
            assert(head.spec_bytes()[feed - 1] == all[feed - 1]);
            assert(valid_utf8(head.spec_bytes()));
            is_char_boundary_iff_not_is_continuation_byte(head.spec_bytes(), feed - 1);
        }
        let (text, _) = head.split_at(feed - 1);
        assert(text.spec_bytes() =~= all.subrange(0, feed - 1));
        (text, feed + 1, next)
    } else {
        (head, feed + 1, next)
    }
}

} // verus!
