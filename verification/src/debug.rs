//! Reports for the eye: the line records of a text, and the chunks of a
//! fragment with the gaps between them. The reports are given as lines of
//! text; to print them is left to the caller.
use crate::chunk_collector::{ascending, separated, Chunk};
use crate::parser::line::{CodeKind, Line, LineView};
use crate::parser::split::{
    first_line_of_suffix, line_stop, line_stop_bounds, split_line, text_stop,
};
use crate::syntax::{Shape, SyntaxNode};
use crate::text::{
    chars_of, decimal, flush_left, flush_right, is_piece, is_whitespace, past_whitespace, piece_of,
    push_decimal, push_flush_left, push_flush_right, push_spaces, skip_whitespace, spaces,
    whitespace,
};
use vstd::prelude::*;
use vstd::string::*;
use vstd::utf8::*;

verus! {

/// A stretch of a fragment in a report: its byte range, and whether it is
/// a gap that no chunk covers.
pub type Stretch = (usize, usize, bool);

/// The stretches for the chunks from index `at` on, where `last_end` is
/// the end of the chunk before them, and `len` the length of the
/// fragment: before each chunk that starts behind `last_end` the gap up
/// to it, then the chunk; at the end the gap up to `len`, if there is one.
pub open spec fn layout_from(chunks: Seq<Chunk>, at: int, last_end: usize, len: usize) -> Seq<
    Stretch,
>
    decreases chunks.len() - at,
{
    if at < 0 || at >= chunks.len() {
        if last_end < len {
            seq![(last_end, len, true)]
        } else {
            Seq::empty()
        }
    } else if chunks[at].0 > last_end {
        seq![(last_end, chunks[at].0, true), (chunks[at].0, chunks[at].1, false)] + layout_from(
            chunks,
            at + 1,
            chunks[at].1,
            len,
        )
    } else {
        seq![(chunks[at].0, chunks[at].1, false)] + layout_from(chunks, at + 1, chunks[at].1, len)
    }
}

/// The stretches of a fragment of `len` bytes with the chunks `chunks`.
pub open spec fn layout(chunks: Seq<Chunk>, len: usize) -> Seq<Stretch> {
    layout_from(chunks, 0, 0, len)
}

/// Whether the stretches lead from `from` to `to` without gap or overlap.
pub open spec fn leads(stretches: Seq<Stretch>, from: int, to: int) -> bool
    decreases stretches.len(),
{
    if stretches.len() == 0 {
        from == to
    } else {
        stretches[0].0 == from && from <= stretches[0].1 && leads(
            stretches.drop_first(),
            stretches[0].1 as int,
            to,
        )
    }
}

/// The stretches after a chunk that ends at `last_end` lead from there to
/// the end of the fragment.
proof fn layout_from_leads(chunks: Seq<Chunk>, at: int, last_end: usize, len: usize)
    requires
        0 <= at <= chunks.len(),
        last_end <= len,
        forall|i: int| 0 <= i < chunks.len() ==> (#[trigger] chunks[i]).0 <= chunks[i].1 <= len,
        forall|i: int| at <= i < chunks.len() ==> last_end <= (#[trigger] chunks[i]).0,
        ascending(chunks),
        separated(chunks),
    ensures
        leads(layout_from(chunks, at, last_end, len), last_end as int, len as int),
    decreases chunks.len() - at,
{
    if at >= chunks.len() {
        if last_end < len {
            let only = seq![(last_end, len, true)];
            assert(only.drop_first() =~= Seq::<Stretch>::empty());
            assert(leads(only.drop_first(), len as int, len as int));
        }
    } else {
        let chunk = chunks[at];
        let rest = layout_from(chunks, at + 1, chunk.1, len);
        assert forall|i: int| at + 1 <= i < chunks.len() implies chunk.1 <= (
        #[trigger] chunks[i]).0 by {
            assert(chunk.1 + 1 < chunks[at + 1].0);
            assert(chunks[at + 1].0 <= chunks[i].0);
        }
        layout_from_leads(chunks, at + 1, chunk.1, len);
        if chunk.0 > last_end {
            let whole = seq![(last_end, chunk.0, true), (chunk.0, chunk.1, false)] + rest;
            let after_gap = seq![(chunk.0, chunk.1, false)] + rest;
            assert(whole.drop_first() =~= after_gap);
            assert(after_gap.drop_first() =~= rest);
            assert(leads(after_gap, chunk.0 as int, len as int));
        } else {
            let whole = seq![(chunk.0, chunk.1, false)] + rest;
            assert(whole.drop_first() =~= rest);
        }
    }
}

/// The stretches for merged chunks of a fragment cover the fragment: they
/// lead from its start to its end without gap or overlap.
pub proof fn layout_covers_fragment(chunks: Seq<Chunk>, len: usize)
    requires
        ascending(chunks),
        separated(chunks),
        forall|i: int| 0 <= i < chunks.len() ==> (#[trigger] chunks[i]).0 <= chunks[i].1 <= len,
    ensures
        leads(layout(chunks, len), 0, len as int),
{
    layout_from_leads(chunks, 0, 0, len);
}

/// Lists the stretches of a fragment of `len` bytes: its chunks, and the
/// gaps before, between and after them.
pub fn chunk_layout(chunks: &[Chunk], len: usize) -> (stretches: Vec<Stretch>)
    ensures
        stretches@ == layout(chunks@, len),
{
    let mut stretches: Vec<Stretch> = Vec::new();
    let mut last_end: usize = 0;
    let mut at: usize = 0;
    while at < chunks.len()
        invariant
            at <= chunks.len(),
            layout(chunks@, len) == stretches@ + layout_from(chunks@, at as int, last_end, len),
        decreases chunks.len() - at,
    {
        let (start, end) = chunks[at];
        let ghost before = stretches@;
        let ghost rest = layout_from(chunks@, at + 1, end, len);
        if start > last_end {
            stretches.push((last_end, start, true));
        }
        stretches.push((start, end, false));
        assert(stretches@ + rest =~= before + layout_from(chunks@, at as int, last_end, len));
        last_end = end;
        at += 1;
    }
    if last_end < len {
        let ghost before = stretches@;
        stretches.push((last_end, len, true));
        assert(stretches@ =~= before + seq![(last_end, len, true)]);
    } else {
        assert(stretches@ + Seq::<Stretch>::empty() =~= stretches@);
    }
    stretches
}

/// The length of `text` in bytes.
pub open spec fn byte_count(text: Seq<char>) -> nat {
    encode_utf8(text).len()
}

/// `text` between double quotes, with the escapes that make it a string
/// literal: its form for debugging.
pub uninterp spec fn quoted(text: Seq<char>) -> Seq<char>;

/// `<str as core::fmt::Debug>::fmt`, through `format!`: the quoted form of
/// `text`.
#[verifier::external_body]
fn quote(text: &str) -> (out: String)
    ensures
        out@ == quoted(text@),
{
    format!("{:?}", text)
}

/// Whether `path` can be shortened to `max` bytes: it is that short, or
/// its last `max - 3` bytes start at a character.
pub open spec fn can_shorten(path: Seq<char>, max: nat) -> bool {
    byte_count(path) > max ==> is_char_boundary(encode_utf8(path), byte_count(path) - max + 3)
}

/// `path` in `max` bytes: padded with spaces to `max` characters when it
/// is no longer than `max` bytes, else three full stops and its last
/// `max - 3` bytes.
pub open spec fn shortened(path: Seq<char>, max: nat) -> Seq<char> {
    if byte_count(path) <= max {
        flush_left(path, max)
    } else {
        "..."@ + decode_utf8(encode_utf8(path).skip(byte_count(path) - max + 3))
    }
}

/// Whether a preview of `raw` can be made: it is no longer than 80 bytes,
/// or its first 77 bytes end at a character.
pub open spec fn can_preview(raw: Seq<char>) -> bool {
    byte_count(raw) > 80 ==> is_char_boundary(encode_utf8(raw), 77)
}

/// The preview of the text of a line: the text, cut to its first 77 bytes
/// and three full stops when it is longer than 80 bytes, in quoted form.
pub open spec fn previewed(raw: Seq<char>) -> Seq<char> {
    quoted(
        if byte_count(raw) > 80 {
            decode_utf8(encode_utf8(raw).take(77)) + "..."@
        } else {
            raw
        },
    )
}

/// The name of a sign.
pub open spec fn sign_name(kind: CodeKind) -> Seq<char> {
    match kind {
        CodeKind::Add => "Add"@,
        CodeKind::Remove => "Remove"@,
        CodeKind::Context => "Context"@,
    }
}

/// The columns that every row starts with: the offset of the line, its
/// quoting layer and its length.
pub open spec fn row_start(label: Seq<char>, offset: nat, quoting_layer: nat, length: nat) -> Seq<
    char,
> {
    label + " off:"@ + flush_right(decimal(offset), 5) + "  q:"@ + flush_left(
        decimal(quoting_layer),
        2,
    ) + "  len:"@ + flush_right(decimal(length), 4)
}

/// The column of the file path.
pub open spec fn file_column(file_path: Seq<char>) -> Seq<char> {
    "file:"@ + flush_left(shortened(file_path, 20), 20)
}

/// The column of the language.
pub open spec fn language_column(language: Seq<char>) -> Seq<char> {
    " lang:"@ + flush_left(language, 7)
}

/// The head of the row of a line: what stands before its text.
pub open spec fn row_head(line: LineView) -> Seq<char> {
    match line {
        LineView::Text { offset, length, quoting_layer, .. } => row_start(
            "TXT "@,
            offset,
            quoting_layer,
            length,
        ),
        LineView::DiffHeader { offset, length, quoting_layer, file_path, .. } => row_start(
            "DIFF"@,
            offset,
            quoting_layer,
            length,
        ) + "              "@ + file_column(file_path),
        LineView::DiffMetadata { offset, length, quoting_layer, .. } => row_start(
            "META"@,
            offset,
            quoting_layer,
            length,
        ),
        LineView::HunkHeader { offset, length, quoting_layer, file_path, language, .. } => row_start(
            "HUNK"@,
            offset,
            quoting_layer,
            length,
        ) + "              "@ + file_column(file_path) + language_column(language),
        LineView::Code { offset, length, quoting_layer, kind, file_path, language, .. } => row_start(
            "CODE"@,
            offset,
            quoting_layer,
            length,
        ) + "  kind:"@ + flush_left(sign_name(kind), 7) + " "@ + file_column(file_path)
            + language_column(language),
    }
}

/// Whether the row of `line` can be made.
pub open spec fn can_print(line: LineView) -> bool {
    &&& can_preview(line.raw())
    &&& match line {
        LineView::DiffHeader { file_path, .. } => can_shorten(file_path, 20),
        LineView::HunkHeader { file_path, .. } => can_shorten(file_path, 20),
        LineView::Code { file_path, .. } => can_shorten(file_path, 20),
        _ => true,
    }
}

/// The length in bytes of the longest head among the first `upto` lines.
pub open spec fn head_width(lines: Seq<Line<'_>>, upto: int) -> nat
    decreases upto,
{
    if upto <= 0 {
        0
    } else {
        let before = head_width(lines, upto - 1);
        let own = byte_count(row_head(lines[upto - 1]@));
        if own > before {
            own
        } else {
            before
        }
    }
}

/// The row of a line in a report whose heads are `width` characters wide.
pub open spec fn row(line: LineView, width: nat) -> Seq<char> {
    flush_left(row_head(line), width) + "  raw: "@ + previewed(line.raw())
}

/// Appends `path`, shortened to `max` bytes, in a column of `max`
/// characters.
fn push_shortened(out: &mut String, path: &str, max: usize)
    requires
        can_shorten(path@, max as nat),
    ensures
        final(out)@ == old(out)@ + flush_left(shortened(path@, max as nat), max as nat),
{
    let bytes = path.as_bytes();
    let mut short = String::new();
    if bytes.len() <= max {
        push_flush_left(&mut short, path, max);
        assert(short@ =~= shortened(path@, max as nat));
    } else {
        proof {
            encode_utf8_valid_utf8(path@);
            assert(bytes.len() - max + 3 <= bytes.len());
        }
        let (_, tail) = path.split_at(bytes.len() - max + 3);
        proof {
            encode_utf8_decode_utf8(tail@);
            assert(tail.spec_bytes() =~= encode_utf8(path@).skip(bytes.len() - max + 3));
        }
        short.append("...");
        short.append(tail);
        assert(short@ =~= shortened(path@, max as nat));
    }
    push_flush_left(out, short.as_str(), max);
}

/// The preview of the text of a line.
fn preview(raw: &str) -> (out: String)
    requires
        can_preview(raw@),
    ensures
        out@ == previewed(raw@),
{
    let bytes = raw.as_bytes();
    if bytes.len() > 80 {
        let (head, _) = raw.split_at(77);
        proof {
            encode_utf8_decode_utf8(head@);
            assert(head.spec_bytes() =~= encode_utf8(raw@).take(77));
        }
        let mut cut = String::new();
        cut.append(head);
        cut.append("...");
        assert(cut@ =~= decode_utf8(encode_utf8(raw@).take(77)) + "..."@);
        quote(cut.as_str())
    } else {
        quote(raw)
    }
}

/// Appends the columns that every row starts with.
fn push_row_start(out: &mut String, label: &str, offset: usize, quoting_layer: usize, length: usize)
    ensures
        final(out)@ == old(out)@ + row_start(
            label@,
            offset as nat,
            quoting_layer as nat,
            length as nat,
        ),
{
    let mut number = String::new();
    out.append(label);
    out.append(" off:");
    push_decimal(&mut number, offset);
    assert(number@ =~= decimal(offset as nat));
    push_flush_right(out, number.as_str(), 5);
    out.append("  q:");
    let mut number = String::new();
    push_decimal(&mut number, quoting_layer);
    assert(number@ =~= decimal(quoting_layer as nat));
    push_flush_left(out, number.as_str(), 2);
    out.append("  len:");
    let mut number = String::new();
    push_decimal(&mut number, length);
    assert(number@ =~= decimal(length as nat));
    push_flush_right(out, number.as_str(), 4);
    assert(out@ =~= old(out)@ + row_start(
        label@,
        offset as nat,
        quoting_layer as nat,
        length as nat,
    ));
}

/// Appends the column of the file path.
fn push_file_column(out: &mut String, file_path: &str)
    requires
        can_shorten(file_path@, 20),
    ensures
        final(out)@ == old(out)@ + file_column(file_path@),
{
    out.append("file:");
    push_shortened(out, file_path, 20);
    assert(out@ =~= old(out)@ + file_column(file_path@));
}

/// Appends the column of the language.
fn push_language_column(out: &mut String, language: &str)
    ensures
        final(out)@ == old(out)@ + language_column(language@),
{
    out.append(" lang:");
    push_flush_left(out, language, 7);
    assert(out@ =~= old(out)@ + language_column(language@));
}

/// The head of the row of `line`.
fn head_of(line: &Line<'_>) -> (head: String)
    requires
        can_print(line@),
    ensures
        head@ == row_head(line@),
{
    let mut head = String::new();
    match line {
        Line::Text { offset, length, quoting_layer, .. } => {
            push_row_start(&mut head, "TXT ", *offset, *quoting_layer, *length);
        },
        Line::DiffHeader { offset, length, quoting_layer, file_path, .. } => {
            push_row_start(&mut head, "DIFF", *offset, *quoting_layer, *length);
            head.append("              ");
            push_file_column(&mut head, file_path.as_str());
        },
        Line::DiffMetadata { offset, length, quoting_layer, .. } => {
            push_row_start(&mut head, "META", *offset, *quoting_layer, *length);
        },
        Line::HunkHeader { offset, length, quoting_layer, file_path, language, .. } => {
            push_row_start(&mut head, "HUNK", *offset, *quoting_layer, *length);
            head.append("              ");
            push_file_column(&mut head, file_path.as_str());
            push_language_column(&mut head, language.as_str());
        },
        Line::Code { offset, length, quoting_layer, kind, file_path, language, .. } => {
            push_row_start(&mut head, "CODE", *offset, *quoting_layer, *length);
            head.append("  kind:");
            let name = match kind {
                CodeKind::Add => "Add",
                CodeKind::Remove => "Remove",
                CodeKind::Context => "Context",
            };
            push_flush_left(&mut head, name, 7);
            head.append(" ");
            push_file_column(&mut head, file_path.as_str());
            push_language_column(&mut head, language.as_str());
        },
    }
    assert(head@ =~= row_head(line@));
    head
}

/// The rows of a report on `lines`, one for each line: its kind, offset,
/// quoting layer and length, what else its record holds, and a preview of
/// its text. The heads of the rows are padded to the width of the longest.
pub fn print_lines(lines: &[Line<'_>]) -> (rows: Vec<String>)
    requires
        forall|i: int| 0 <= i < lines.len() ==> can_print(#[trigger] lines[i]@),
    ensures
        rows@.len() == lines.len(),
        forall|i: int|
            0 <= i < lines.len() ==> (#[trigger] rows@[i])@ == row(
                lines[i]@,
                head_width(lines@, lines.len() as int),
            ),
{
    let mut heads: Vec<String> = Vec::new();
    let mut width: usize = 0;
    let mut at: usize = 0;
    while at < lines.len()
        invariant
            at <= lines.len(),
            heads@.len() == at,
            width == head_width(lines@, at as int),
            forall|i: int| 0 <= i < lines.len() ==> can_print(#[trigger] lines[i]@),
            forall|i: int| 0 <= i < at ==> (#[trigger] heads@[i])@ == row_head(lines[i]@),
        decreases lines.len() - at,
    {
        let head = head_of(&lines[at]);
        let own = head.as_str().as_bytes().len();
        if own > width {
            width = own;
        }
        heads.push(head);
        at += 1;
    }
    let mut rows: Vec<String> = Vec::new();
    let mut at: usize = 0;
    while at < lines.len()
        invariant
            at <= lines.len(),
            rows@.len() == at,
            heads@.len() == lines.len(),
            width == head_width(lines@, lines.len() as int),
            forall|i: int| 0 <= i < lines.len() ==> can_print(#[trigger] lines[i]@),
            forall|i: int| 0 <= i < lines.len() ==> (#[trigger] heads@[i])@ == row_head(lines[i]@),
            forall|i: int| 0 <= i < at ==> (#[trigger] rows@[i])@ == row(lines[i]@, width as nat),
        decreases lines.len() - at,
    {
        let mut text = String::new();
        push_flush_left(&mut text, heads[at].as_str(), width);
        text.append("  raw: ");
        let shown = preview(lines[at].get_raw());
        text.append(shown.as_str());
        assert(text@ =~= row(lines[at as int]@, width as nat));
        rows.push(text);
        at += 1;
    }
    rows
}

/// The texts of the lines of `bytes` from the line that starts at `from`
/// on, without their terminators.
pub open spec fn texts_from(bytes: Seq<u8>, from: int) -> Seq<Seq<char>>
    decreases bytes.len() - from,
{
    if from < 0 || from >= bytes.len() || !(from < line_stop(bytes, from) <= bytes.len()) {
        Seq::empty()
    } else {
        seq![decode_utf8(bytes.subrange(from, text_stop(bytes, from)))] + texts_from(
            bytes,
            line_stop(bytes, from),
        )
    }
}

/// The line that opens a report on chunks.
pub open spec fn banner() -> Seq<char> {
    "==================================== Chunks ===================================="@
}

/// The line that closes a report on chunks.
pub open spec fn footer() -> Seq<char> {
    "================================================================================"@
}

/// The mark of a stretch that is a gap.
pub open spec fn gap_mark(gap: bool) -> Seq<char> {
    if gap {
        "ERROR"@
    } else {
        Seq::empty()
    }
}

/// The head of the entry of stretch number `index`, counting from zero:
/// its number, its first and its last byte, its length, and in red the
/// mark of a gap.
pub open spec fn entry_head(index: nat, stretch: Stretch) -> Seq<char> {
    " "@ + flush_right(decimal(index + 1), 3) + ". ["@ + flush_right(
        decimal(stretch.0 as nat),
        5,
    ) + ","@ + flush_left(decimal((stretch.1 - 1) as nat), 5) + "] len="@ + flush_left(
        decimal((stretch.1 - stretch.0) as nat),
        5,
    ) + " "@ + "\x1b[1;31m"@ + flush_left(gap_mark(stretch.2), 6) + "\x1b[0m"@ + "  "@
}

/// The lines of an entry with the head `head` for a stretch with the
/// lines `lines`: the head and the first line, then each further line
/// under the first one, behind as many spaces as stand before the text of
/// the first line. A stretch without lines has no entry.
pub open spec fn entry_lines(head: Seq<char>, lines: Seq<Seq<char>>) -> Seq<Seq<char>> {
    if lines.len() == 0 {
        Seq::empty()
    } else {
        let indent = spaces(head.len() - 11) + spaces(skip_whitespace(lines[0], 0));
        Seq::new(
            lines.len(),
            |i: int|
                if i == 0 {
                    head + lines[0]
                } else {
                    indent + lines[i]
                },
        )
    }
}

/// The entry of stretch number `index` of the fragment `bytes`.
pub open spec fn entry(bytes: Seq<u8>, index: nat, stretch: Stretch) -> Seq<Seq<char>> {
    entry_lines(
        entry_head(index, stretch),
        texts_from(bytes.subrange(stretch.0 as int, stretch.1 as int), 0),
    )
}

/// The entries of the first `upto` stretches, one after the other.
pub open spec fn entries(bytes: Seq<u8>, stretches: Seq<Stretch>, upto: int) -> Seq<Seq<char>>
    decreases upto,
{
    if upto <= 0 {
        Seq::empty()
    } else {
        entries(bytes, stretches, upto - 1) + entry(
            bytes,
            (upto - 1) as nat,
            stretches[upto - 1],
        )
    }
}

/// Whether the entry of a stretch can be made: the stretch is a piece of
/// the fragment, and it does not end at offset zero.
pub open spec fn can_show(bytes: Seq<u8>, stretch: Stretch) -> bool {
    1 <= stretch.1 && is_piece(bytes, stretch.0 as int, stretch.1 as int)
}

/// The report on the chunks `chunks` of the fragment `bytes`: an empty
/// line, the banner, the entry of each stretch, the footer and an empty
/// line.
pub open spec fn chunk_report(chunks: Seq<Chunk>, bytes: Seq<u8>) -> Seq<Seq<char>> {
    let stretches = layout(chunks, bytes.len() as usize);
    seq![Seq::empty(), banner()] + entries(bytes, stretches, stretches.len() as int) + seq![
        footer(),
        Seq::empty(),
    ]
}

/// The characters of each of `rows`.
pub open spec fn texts_of(rows: Seq<String>) -> Seq<Seq<char>> {
    rows.map_values(|row: String| row@)
}

/// The texts of the lines of `text`, without their terminators.
fn lines_of<'a>(text: &'a str) -> (lines: Vec<&'a str>)
    ensures
        lines@.map_values(|line: &str| line@) == texts_from(text.spec_bytes(), 0),
{
    let ghost bytes = text.spec_bytes();
    let all = text.as_bytes();
    assert(bytes.len() == all.len());
    let mut lines: Vec<&'a str> = Vec::new();
    let mut rest: &'a str = text;
    let mut offset: usize = 0;
    assert(bytes.subrange(0, bytes.len() as int) =~= bytes);
    assert(lines@.map_values(|line: &str| line@) =~= Seq::empty());
    while rest.len() > 0
        invariant
            bytes == text.spec_bytes(),
            bytes.len() <= usize::MAX,
            offset <= bytes.len(),
            rest.spec_bytes() == bytes.subrange(offset as int, bytes.len() as int),
            texts_from(bytes, 0) == lines@.map_values(|line: &str| line@) + texts_from(
                bytes,
                offset as int,
            ),
        decreases bytes.len() - offset,
    {
        let ghost before = lines@.map_values(|line: &str| line@);
        let (raw, length, next) = split_line(rest);
        proof {
            first_line_of_suffix(bytes, offset as int);
            line_stop_bounds(bytes, offset as int);
            encode_utf8_decode_utf8(raw@);
            assert(raw.spec_bytes() =~= bytes.subrange(
                offset as int,
                text_stop(bytes, offset as int),
            ));
            assert(next.spec_bytes() =~= bytes.subrange(offset + length, bytes.len() as int));
        }
        lines.push(raw);
        assert(lines@.map_values(|line: &str| line@) =~= before + seq![raw@]);
        offset = offset + length;
        rest = next;
    }
    assert(lines@.map_values(|line: &str| line@) + Seq::<Seq<char>>::empty()
        =~= lines@.map_values(|line: &str| line@));
    lines
}

/// The head of the entry of stretch number `index`.
fn head_of_entry(index: usize, stretch: Stretch) -> (head: String)
    requires
        index < usize::MAX,
        stretch.0 <= stretch.1,
        1 <= stretch.1,
    ensures
        head@ == entry_head(index as nat, stretch),
        head@.len() >= 11,
{
    let (start, end, gap) = stretch;
    let mut head = String::new();
    head.append(" ");
    let mut number = String::new();
    push_decimal(&mut number, index + 1);
    assert(number@ =~= decimal((index + 1) as nat));
    push_flush_right(&mut head, number.as_str(), 3);
    head.append(". [");
    let mut number = String::new();
    push_decimal(&mut number, start);
    assert(number@ =~= decimal(start as nat));
    push_flush_right(&mut head, number.as_str(), 5);
    head.append(",");
    let mut number = String::new();
    push_decimal(&mut number, end - 1);
    assert(number@ =~= decimal((end - 1) as nat));
    push_flush_left(&mut head, number.as_str(), 5);
    head.append("] len=");
    let mut number = String::new();
    push_decimal(&mut number, end - start);
    assert(number@ =~= decimal((end - start) as nat));
    push_flush_left(&mut head, number.as_str(), 5);
    head.append(" ");
    head.append("\x1b[1;31m");
    if gap {
        push_flush_left(&mut head, "ERROR", 6);
    } else {
        proof {
            reveal_strlit("");
        }
        push_flush_left(&mut head, "", 6);
        assert(""@ =~= gap_mark(false));
    }
    head.append("\x1b[0m");
    head.append("  ");
    proof {
        reveal_strlit("\x1b[1;31m");
        reveal_strlit("\x1b[0m");
    }
    assert(head@ =~= entry_head(index as nat, stretch));
    head
}

/// Appends the entry with the head `head` for the piece `piece` to `rows`.
fn push_entry(rows: &mut Vec<String>, head: String, piece: &str)
    requires
        head@.len() >= 11,
    ensures
        texts_of(final(rows)@) == texts_of(old(rows)@) + entry_lines(
            head@,
            texts_from(piece.spec_bytes(), 0),
        ),
{
    let lines = lines_of(piece);
    let ghost texts = lines@.map_values(|line: &str| line@);
    if lines.len() == 0 {
        assert(texts_of(rows@) + Seq::<Seq<char>>::empty() =~= texts_of(rows@));
        return ;
    }
    let first_chars = chars_of(lines[0]);
    let code_offset = past_whitespace(first_chars.as_slice(), 0);
    let visible = head.as_str().unicode_len();
    let mut first = head;
    first.append(lines[0]);
    let ghost before = texts_of(rows@);
    rows.push(first);
    assert(texts_of(rows@) =~= before + entry_lines(head@, texts).take(1));
    let mut at: usize = 1;
    while at < lines.len()
        invariant
            1 <= at <= lines.len(),
            texts == lines@.map_values(|line: &str| line@),
            visible == head@.len(),
            visible >= 11,
            code_offset == skip_whitespace(texts[0], 0),
            texts_of(rows@) == before + entry_lines(head@, texts).take(at as int),
        decreases lines.len() - at,
    {
        let ghost so_far = texts_of(rows@);
        let mut text = String::new();
        push_spaces(&mut text, visible - 11);
        push_spaces(&mut text, code_offset);
        text.append(lines[at]);
        assert(text@ =~= entry_lines(head@, texts)[at as int]);
        rows.push(text);
        assert(texts_of(rows@) =~= so_far.push(text@));
        assert(texts_of(rows@) =~= before + entry_lines(head@, texts).take(at + 1));
        at += 1;
    }
    assert(entry_lines(head@, texts).take(at as int) =~= entry_lines(head@, texts));
}

/// The lines of a report on the chunks of the fragment `src`: each chunk
/// and each gap between chunks with its number, its range and its text.
pub fn print_chunks(chunks: &[Chunk], src: &str) -> (rows: Vec<String>)
    requires
        forall|i: int|
            0 <= i < layout(chunks@, src.spec_bytes().len() as usize).len() ==> can_show(
                src.spec_bytes(),
                #[trigger] layout(chunks@, src.spec_bytes().len() as usize)[i],
            ),
    ensures
        texts_of(rows@) == chunk_report(chunks@, src.spec_bytes()),
{
    let ghost bytes = src.spec_bytes();
    let stretches = chunk_layout(chunks, src.as_bytes().len());
    let mut rows: Vec<String> = Vec::new();
    rows.push(String::new());
    rows.push("==================================== Chunks ====================================".to_owned());
    assert(texts_of(rows@) =~= seq![Seq::empty(), banner()]);
    let mut at: usize = 0;
    while at < stretches.len()
        invariant
            at <= stretches.len(),
            bytes == src.spec_bytes(),
            stretches@ == layout(chunks@, bytes.len() as usize),
            forall|i: int| 0 <= i < stretches@.len() ==> can_show(bytes, #[trigger] stretches@[i]),
            texts_of(rows@) == seq![Seq::empty(), banner()] + entries(bytes, stretches@, at as int),
        decreases stretches.len() - at,
    {
        let stretch = stretches[at];
        assert(can_show(bytes, stretches@[at as int]));
        let piece = match piece_of(src, stretch.0, stretch.1) {
            Some(piece) => piece,
            None => {
                assert(false);
                ""
            },
        };
        let head = head_of_entry(at, stretch);
        let ghost before = texts_of(rows@);
        push_entry(&mut rows, head, piece);
        assert(texts_of(rows@) =~= seq![Seq::empty(), banner()] + entries(
            bytes,
            stretches@,
            at + 1,
        ));
        at += 1;
    }
    let ghost body = texts_of(rows@);
    rows.push("================================================================================".to_owned());
    rows.push(String::new());
    assert(texts_of(rows@) =~= body + seq![footer(), Seq::empty()]);
    rows
}

/// Where `text` ends once the whitespace at its end is taken away.
pub open spec fn trim_stop(text: Seq<char>) -> int
    decreases text.len(),
{
    if text.len() > 0 && is_whitespace(text.last()) {
        trim_stop(text.drop_last())
    } else {
        text.len() as int
    }
}

/// `text` without the whitespace at its start and at its end.
pub open spec fn trimmed(text: Seq<char>) -> Seq<char> {
    if skip_whitespace(text, 0) < trim_stop(text) {
        text.subrange(skip_whitespace(text, 0), trim_stop(text))
    } else {
        Seq::empty()
    }
}

/// The line for `node` in a dump of a tree over the fragment `bytes`: its
/// kind behind `indent`, and the text that it spans, trimmed and quoted.
pub open spec fn tree_line(node: Shape, bytes: Seq<u8>, indent: Seq<char>) -> Seq<char> {
    indent + node.kind + ": "@ + quoted(
        trimmed(decode_utf8(bytes.subrange(node.start as int, node.end as int))),
    )
}

/// The lines for the children of `node` from child `at` on, and for all
/// that stands below them: each child behind `indent`, and what stands
/// below a child two spaces deeper than the child.
pub open spec fn dumped_below(node: Shape, bytes: Seq<u8>, indent: Seq<char>, at: int) -> Seq<
    Seq<char>,
>
    decreases node, node.children.len() - at,
{
    if at < 0 || at >= node.children.len() {
        Seq::empty()
    } else {
        seq![tree_line(node.children[at], bytes, indent)] + dumped_below(
            node.children[at],
            bytes,
            indent + "  "@,
            0,
        ) + dumped_below(node, bytes, indent, at + 1)
    }
}

/// The dump of the tree `node` over the fragment `bytes`: a line for the
/// node, then the lines for what stands below it, two spaces deeper for
/// each level.
pub open spec fn dumped(node: Shape, bytes: Seq<u8>) -> Seq<Seq<char>> {
    seq![tree_line(node, bytes, Seq::empty())] + dumped_below(node, bytes, "  "@, 0)
}

/// Whether the tree `node` can be dumped: the range of each of its nodes
/// is a piece of the fragment.
pub open spec fn can_dump(node: Shape, bytes: Seq<u8>) -> bool
    decreases node,
{
    &&& is_piece(bytes, node.start as int, node.end as int)
    &&& forall|i: int|
        0 <= i < node.children.len() ==> can_dump(#[trigger] node.children[i], bytes)
}

/// `text` without the whitespace at its start and at its end.
fn trim<'a>(text: &'a str) -> (out: &'a str)
    ensures
        out@ == trimmed(text@),
{
    let chars = chars_of(text);
    let start = past_whitespace(chars.as_slice(), 0);
    let mut stop: usize = chars.len();
    assert(chars@.take(stop as int) =~= chars@);
    while stop > 0 && whitespace(chars[stop - 1])
        invariant
            stop <= chars.len(),
            trim_stop(chars@) == trim_stop(chars@.take(stop as int)),
        decreases stop,
    {
        assert(chars@.take(stop as int).drop_last() =~= chars@.take(stop - 1));
        stop -= 1;
    }
    if start < stop {
        text.substring_char(start, stop)
    } else {
        proof {
            reveal_strlit("");
        }
        assert(""@ =~= Seq::<char>::empty());
        ""
    }
}

/// Appends the line for `node` behind `indent` to `rows`.
fn push_tree_line(rows: &mut Vec<String>, node: &SyntaxNode, source: &str, indent: &str)
    requires
        is_piece(source.spec_bytes(), node.start as int, node.end as int),
    ensures
        texts_of(final(rows)@) == texts_of(old(rows)@).push(
            tree_line(node@, source.spec_bytes(), indent@),
        ),
{
    let span = match piece_of(source, node.start, node.end) {
        Some(span) => span,
        None => {
            assert(false);
            ""
        },
    };
    let shown = quote(trim(span));
    let mut text = String::new();
    text.append(indent);
    text.append(node.kind.as_str());
    text.append(": ");
    text.append(shown.as_str());
    assert(text@ =~= tree_line(node@, source.spec_bytes(), indent@));
    rows.push(text);
    assert(texts_of(rows@) =~= texts_of(old(rows)@).push(text@));
}

/// Appends the lines for what stands below `node` to `rows`, the children
/// of `node` behind `indent`.
fn dump_below(rows: &mut Vec<String>, node: &SyntaxNode, source: &str, indent: &str)
    requires
        can_dump(node@, source.spec_bytes()),
    ensures
        texts_of(final(rows)@) == texts_of(old(rows)@) + dumped_below(
            node@,
            source.spec_bytes(),
            indent@,
            0,
        ),
    decreases *node,
{
    let ghost bytes = source.spec_bytes();
    let mut deeper = String::new();
    deeper.append(indent);
    deeper.append("  ");
    let mut at: usize = 0;
    proof {
        node.view_of_children();
    }
    while at < node.children.len()
        invariant
            at <= node.children.len(),
            bytes == source.spec_bytes(),
            deeper@ == indent@ + "  "@,
            can_dump(node@, bytes),
            node@.children.len() == node.children@.len(),
            forall|i: int|
                0 <= i < node.children@.len() ==> node@.children[i] == (
                #[trigger] node.children@[i])@,
            texts_of(old(rows)@) + dumped_below(node@, bytes, indent@, 0) == texts_of(rows@)
                + dumped_below(node@, bytes, indent@, at as int),
        decreases node.children.len() - at,
    {
        let child = &node.children[at];
        let ghost before = texts_of(rows@);
        assert(can_dump(node@.children[at as int], bytes));
        push_tree_line(rows, child, source, indent);
        dump_below(rows, child, source, deeper.as_str());
        assert(texts_of(rows@) + dumped_below(node@, bytes, indent@, at + 1) =~= before
            + dumped_below(node@, bytes, indent@, at as int));
        at += 1;
    }
    assert(texts_of(rows@) + Seq::<Seq<char>>::empty() =~= texts_of(rows@));
}

/// The lines of a dump of the tree `node` over the fragment `source`: for
/// each node its kind and the text that it spans, children below their
/// parent and two spaces deeper.
pub fn dump_tree(node: &SyntaxNode, source: &str) -> (rows: Vec<String>)
    requires
        can_dump(node@, source.spec_bytes()),
    ensures
        texts_of(rows@) == dumped(node@, source.spec_bytes()),
{
    let mut rows: Vec<String> = Vec::new();
    assert(texts_of(rows@) =~= Seq::empty());
    proof {
        reveal_strlit("");
    }
    push_tree_line(&mut rows, node, source, "");
    assert(""@ =~= Seq::<char>::empty());
    assert(texts_of(rows@) =~= seq![tree_line(node@, source.spec_bytes(), Seq::empty())]);
    dump_below(&mut rows, node, source, "  ");
    rows
}

} // verus!
