//! Character-level helpers shared by the classifier and the renderer.
use vstd::prelude::*;
use vstd::string::*;
use vstd::utf8::{decode_utf8, encode_utf8_decode_utf8, is_char_boundary};

verus! {

/// A space or a horizontal tab: the blanks that may surround quote markers
/// and precede a diff sign.
pub open spec fn is_blank(c: char) -> bool {
    c == ' ' || c == '\t'
}

/// The characters that Unicode counts as white space.
pub open spec fn is_whitespace(c: char) -> bool {
    let u = c as u32;
    ||| 0x09 <= u <= 0x0D
    ||| u == 0x20
    ||| u == 0x85
    ||| u == 0xA0
    ||| u == 0x1680
    ||| 0x2000 <= u <= 0x200A
    ||| u == 0x2028
    ||| u == 0x2029
    ||| u == 0x202F
    ||| u == 0x205F
    ||| u == 0x3000
}

/// Whether `c` is a space or a horizontal tab.
pub fn blank(c: char) -> (r: bool)
    ensures
        r == is_blank(c),
{
    c == ' ' || c == '\t'
}

/// Whether `c` is white space.
pub fn whitespace(c: char) -> (r: bool)
    ensures
        r == is_whitespace(c),
{
    let u: u32 = c as u32;
    (0x09 <= u && u <= 0x0D) || u == 0x20 || u == 0x85 || u == 0xA0 || u == 0x1680 || (0x2000 <= u
        && u <= 0x200A) || u == 0x2028 || u == 0x2029 || u == 0x202F || u == 0x205F || u == 0x3000
}

/// The characters of `s`, in order.
pub fn chars_of(s: &str) -> (v: Vec<char>)
    ensures
        v@ == s@,
{
    let mut v: Vec<char> = Vec::new();
    for c in it: s.chars()
        invariant
            v@ == it.seq().take(it.index() as int),
            it.seq() == s@,
    {
        v.push(c);
    }
    v
}

/// Whether `hay`, read from index `at`, begins with `needle`.
pub open spec fn has_prefix_at(hay: Seq<char>, at: int, needle: Seq<char>) -> bool {
    &&& 0 <= at
    &&& at + needle.len() <= hay.len()
    &&& hay.subrange(at, at + needle.len()) == needle
}

/// Whether `hay`, read from index `at`, begins with `needle`.
pub fn starts_with_at(hay: &[char], at: usize, needle: &[char]) -> (r: bool)
    ensures
        r == has_prefix_at(hay@, at as int, needle@),
{
    if at > hay.len() || needle.len() > hay.len() - at {
        return false;
    }
    let mut i: usize = 0;
    while i < needle.len()
        invariant
            at <= hay.len(),
            i <= needle.len() <= hay.len() - at,
            forall|j: int| 0 <= j < i ==> hay@[at + j] == needle@[j],
        decreases needle.len() - i,
    {
        if hay[at + i] != needle[i] {
            proof {
                let sub = hay@.subrange(at as int, at + needle@.len());
                assert(sub[i as int] == hay@[at + i]);
            }
            return false;
        }
        i += 1;
    }
    assert(hay@.subrange(at as int, at + needle@.len()) =~= needle@);
    true
}

/// The first index at or after `from` whose character is not whitespace,
/// or the length of `s` when there is none.
pub open spec fn skip_whitespace(s: Seq<char>, from: int) -> int
    decreases s.len() - from,
{
    if 0 <= from < s.len() && is_whitespace(s[from]) {
        skip_whitespace(s, from + 1)
    } else {
        from
    }
}

/// The first index at or after `from` whose character is whitespace, or the
/// length of `s` when there is none.
pub open spec fn skip_word(s: Seq<char>, from: int) -> int
    decreases s.len() - from,
{
    if 0 <= from < s.len() && !is_whitespace(s[from]) {
        skip_word(s, from + 1)
    } else {
        from
    }
}

/// What `skip_whitespace` skips is whitespace, and it stops at the end or
/// at a character that is none.
pub proof fn skip_whitespace_bounds(s: Seq<char>, from: int)
    requires
        0 <= from <= s.len(),
    ensures
        from <= skip_whitespace(s, from) <= s.len(),
        forall|i: int| from <= i < skip_whitespace(s, from) ==> is_whitespace(s[i]),
        skip_whitespace(s, from) < s.len() ==> !is_whitespace(s[skip_whitespace(s, from)]),
    decreases s.len() - from,
{
    if from < s.len() && is_whitespace(s[from]) {
        skip_whitespace_bounds(s, from + 1);
    }
}

/// What `skip_word` skips is no whitespace, and it stops at the end or at
/// whitespace.
pub proof fn skip_word_bounds(s: Seq<char>, from: int)
    requires
        0 <= from <= s.len(),
    ensures
        from <= skip_word(s, from) <= s.len(),
        forall|i: int| from <= i < skip_word(s, from) ==> !is_whitespace(s[i]),
        skip_word(s, from) < s.len() ==> is_whitespace(s[skip_word(s, from)]),
    decreases s.len() - from,
{
    if from < s.len() && !is_whitespace(s[from]) {
        skip_word_bounds(s, from + 1);
    }
}

/// The first index at or after `from` whose character is not whitespace.
pub fn past_whitespace(s: &[char], from: usize) -> (r: usize)
    ensures
        r == skip_whitespace(s@, from as int),
        from <= r,
        from <= s.len() ==> r <= s.len(),
{
    let mut i: usize = from;
    while i < s.len() && whitespace(s[i])
        invariant
            from <= i,
            from <= s.len() ==> i <= s.len(),
            skip_whitespace(s@, from as int) == skip_whitespace(s@, i as int),
        decreases s.len() - i,
    {
        i += 1;
    }
    i
}

/// The first index at or after `from` whose character is whitespace.
pub fn past_word(s: &[char], from: usize) -> (r: usize)
    ensures
        r == skip_word(s@, from as int),
        from <= r,
        from <= s.len() ==> r <= s.len(),
{
    let mut i: usize = from;
    while i < s.len() && !whitespace(s[i])
        invariant
            from <= i,
            from <= s.len() ==> i <= s.len(),
            skip_word(s@, from as int) == skip_word(s@, i as int),
        decreases s.len() - i,
    {
        i += 1;
    }
    i
}

/// Whether two strings hold the same characters.
pub fn same_text(a: &str, b: &str) -> (same: bool)
    ensures
        same == (a@ == b@),
{
    let left = a.as_bytes();
    let right = b.as_bytes();
    proof {
        vstd::utf8::encode_utf8_decode_utf8(a@);
        vstd::utf8::encode_utf8_decode_utf8(b@);
    }
    if left.len() != right.len() {
        assert(a.spec_bytes().len() != b.spec_bytes().len());
        return false;
    }
    let mut i: usize = 0;
    while i < left.len()
        invariant
            i <= left.len() == right.len(),
            left@ == a.spec_bytes(),
            right@ == b.spec_bytes(),
            forall|j: int| 0 <= j < i ==> left@[j] == right@[j],
        decreases left.len() - i,
    {
        if left[i] != right[i] {
            assert(a.spec_bytes()[i as int] != b.spec_bytes()[i as int]);
            return false;
        }
        i += 1;
    }
    assert(left@ =~= right@);
    true
}

/// The decimal digit for `d`.
pub open spec fn digit(d: nat) -> char {
    if d == 0 {
        '0'
    } else if d == 1 {
        '1'
    } else if d == 2 {
        '2'
    } else if d == 3 {
        '3'
    } else if d == 4 {
        '4'
    } else if d == 5 {
        '5'
    } else if d == 6 {
        '6'
    } else if d == 7 {
        '7'
    } else if d == 8 {
        '8'
    } else {
        '9'
    }
}

/// The decimal numeral of `n`, without leading zeros.
pub open spec fn decimal(n: nat) -> Seq<char>
    decreases n,
{
    if n < 10 {
        seq![digit(n)]
    } else {
        decimal(n / 10).push(digit(n % 10))
    }
}

/// `count` spaces; none when `count` is not positive.
pub open spec fn spaces(count: int) -> Seq<char> {
    Seq::new(
        if count > 0 {
            count as nat
        } else {
            0
        },
        |i: int| ' ',
    )
}

/// `text` followed by the spaces that it lacks to be `width` characters
/// long.
pub open spec fn flush_left(text: Seq<char>, width: nat) -> Seq<char> {
    text + spaces(width - text.len())
}

/// `text` preceded by the spaces that it lacks to be `width` characters
/// long.
pub open spec fn flush_right(text: Seq<char>, width: nat) -> Seq<char> {
    spaces(width - text.len()) + text
}

/// The digit for `d` as a string.
fn digit_text(d: usize) -> (text: &'static str)
    requires
        d < 10,
    ensures
        text@ == seq![digit(d as nat)],
{
    proof {
        reveal_strlit("0");
        reveal_strlit("1");
        reveal_strlit("2");
        reveal_strlit("3");
        reveal_strlit("4");
        reveal_strlit("5");
        reveal_strlit("6");
        reveal_strlit("7");
        reveal_strlit("8");
        reveal_strlit("9");
    }
    let text = match d {
        0 => "0",
        1 => "1",
        2 => "2",
        3 => "3",
        4 => "4",
        5 => "5",
        6 => "6",
        7 => "7",
        8 => "8",
        _ => "9",
    };
    assert(text@ =~= seq![digit(d as nat)]);
    text
}

/// Appends the decimal numeral of `n` to `out`.
pub fn push_decimal(out: &mut String, n: usize)
    ensures
        final(out)@ == old(out)@ + decimal(n as nat),
    decreases n,
{
    if n >= 10 {
        push_decimal(out, n / 10);
    }
    let ghost before = out@;
    out.append(digit_text(n % 10));
    assert(out@ =~= before.push(digit((n % 10) as nat)));
    assert(out@ =~= old(out)@ + decimal(n as nat));
}

/// Appends `count` spaces to `out`.
pub fn push_spaces(out: &mut String, count: usize)
    ensures
        final(out)@ == old(out)@ + spaces(count as int),
{
    let mut done: usize = 0;
    assert(out@ =~= old(out)@ + spaces(0));
    while done < count
        invariant
            done <= count,
            out@ == old(out)@ + spaces(done as int),
        decreases count - done,
    {
        proof {
            reveal_strlit(" ");
        }
        let ghost before = out@;
        out.append(" ");
        assert(out@ =~= before.push(' '));
        assert(out@ =~= old(out)@ + spaces(done + 1));
        done += 1;
    }
}

/// Appends `text` to `out`, then the spaces that it lacks to be `width`
/// characters long.
pub fn push_flush_left(out: &mut String, text: &str, width: usize)
    ensures
        final(out)@ == old(out)@ + flush_left(text@, width as nat),
{
    let length = text.unicode_len();
    out.append(text);
    if length < width {
        push_spaces(out, width - length);
    } else {
        assert(old(out)@ + text@ =~= old(out)@ + (text@ + spaces(width - length)));
    }
    assert(out@ =~= old(out)@ + flush_left(text@, width as nat));
}

/// Appends the spaces that `text` lacks to be `width` characters long to
/// `out`, then `text`.
pub fn push_flush_right(out: &mut String, text: &str, width: usize)
    ensures
        final(out)@ == old(out)@ + flush_right(text@, width as nat),
{
    let length = text.unicode_len();
    if length < width {
        push_spaces(out, width - length);
    }
    out.append(text);
    assert(out@ =~= old(out)@ + flush_right(text@, width as nat));
}

/// Whether `start..end` cuts a piece out of `bytes` at character
/// boundaries.
pub open spec fn is_piece(bytes: Seq<u8>, start: int, end: int) -> bool {
    &&& 0 <= start <= end <= bytes.len()
    &&& is_char_boundary(bytes, end)
    &&& is_char_boundary(bytes.subrange(0, end), start)
}

/// The piece `start..end` of `code`, or nothing when the range does not
/// cut a piece out of it.
pub fn piece_of<'a>(code: &'a str, start: usize, end: usize) -> (piece: Option<&'a str>)
    ensures
        piece is Some <==> is_piece(code.spec_bytes(), start as int, end as int),
        piece matches Some(text) ==> text@ == decode_utf8(
            code.spec_bytes().subrange(start as int, end as int),
        ) && text.spec_bytes() == code.spec_bytes().subrange(start as int, end as int),
{
    let bytes = code.as_bytes();
    if start > end || end > bytes.len() || !code.is_char_boundary(end) {
        return None;
    }
    let (head, _) = code.split_at(end);
    if !head.is_char_boundary(start) {
        return None;
    }
    let (_, text) = head.split_at(start);
    proof {
        encode_utf8_decode_utf8(text@);
        assert(text.spec_bytes() =~= code.spec_bytes().subrange(start as int, end as int));
    }
    Some(text)
}

} // verus!
