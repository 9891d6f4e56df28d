//! Line records, and the automaton that classifies the lines of each
//! quoting layer.
use crate::parser::quoting::{
    quote_depth, quote_prefix_is_maximal, quote_prefix_len, scan_quoting, stripped,
};
use crate::parser::split::{
    first_line_of_suffix, line_bytes, line_length, line_start, line_start_bounds,
    line_stop_bounds, line_text, lines_cover_buffer, split_line,
};
use crate::text::{
    blank, chars_of, has_prefix_at, is_blank, past_whitespace, past_word, skip_whitespace,
    skip_whitespace_bounds, skip_word, starts_with_at,
};
use vstd::prelude::*;
use vstd::string::*;

verus! {

/// The sign of a line inside a hunk.
#[derive(Debug, Clone, Copy, PartialEq, Eq, Structural)]
pub enum CodeKind {
    Add,
    Remove,
    Context,
}

/// The state of the automaton of one quoting layer.
///
/// `Text` moves to `Diff` at a diff header, `Diff` moves to `Hunk` at a hunk
/// header, and `Hunk` moves to `Code` at the line after the hunk header. A
/// hunk header met in `Hunk` or `Code` leads back to `Hunk`. No state leads
/// back to `Text`.
#[derive(Debug, Clone, Copy, PartialEq, Eq, Structural)]
pub enum State {
    Text,
    Diff,
    Hunk,
    Code,
}

/// The kind of a line record.
#[derive(Debug, Clone, Copy, PartialEq, Eq, Structural)]
pub enum LineKind {
    Text,
    DiffHeader,
    DiffMetadata,
    HunkHeader,
    Code,
}

/// What a quoting layer remembers between its lines, as plain values.
pub struct Layer {
    pub state: State,
    pub file_path: Seq<char>,
    pub language: Seq<char>,
}

/// The parsing state of one quoting layer.
///
/// Lines of several quoting depths may alternate in a mail. Each depth has
/// a state of its own, which only the lines of that depth change.
#[derive(Debug, Clone)]
pub struct LayerState {
    pub state: State,
    pub file_path: String,
    pub language: String,
}

impl View for LayerState {
    type V = Layer;

    open spec fn view(&self) -> Layer {
        Layer { state: self.state, file_path: self.file_path@, language: self.language@ }
    }
}

/// One line of the input.
///
/// `offset` and `length` are in bytes; `length` counts the line terminator,
/// `raw` is the text of the line without it.
#[derive(Debug, Clone)]
pub enum Line<'a> {
    Text { offset: usize, length: usize, quoting_layer: usize, raw: &'a str },
    DiffHeader { offset: usize, length: usize, quoting_layer: usize, file_path: String, raw: &'a str },
    DiffMetadata { offset: usize, length: usize, quoting_layer: usize, raw: &'a str },
    HunkHeader {
        offset: usize,
        length: usize,
        quoting_layer: usize,
        file_path: String,
        language: String,
        raw: &'a str,
    },
    Code {
        offset: usize,
        length: usize,
        quoting_layer: usize,
        kind: CodeKind,
        file_path: String,
        language: String,
        raw: &'a str,
    },
}

/// A line record as plain values.
pub enum LineView {
    Text { offset: nat, length: nat, quoting_layer: nat, raw: Seq<char> },
    DiffHeader { offset: nat, length: nat, quoting_layer: nat, file_path: Seq<char>, raw: Seq<char> },
    DiffMetadata { offset: nat, length: nat, quoting_layer: nat, raw: Seq<char> },
    HunkHeader {
        offset: nat,
        length: nat,
        quoting_layer: nat,
        file_path: Seq<char>,
        language: Seq<char>,
        raw: Seq<char>,
    },
    Code {
        offset: nat,
        length: nat,
        quoting_layer: nat,
        kind: CodeKind,
        file_path: Seq<char>,
        language: Seq<char>,
        raw: Seq<char>,
    },
}

impl LineView {
    /// The kind of the record.
    pub open spec fn kind(self) -> LineKind {
        match self {
            LineView::Text { .. } => LineKind::Text,
            LineView::DiffHeader { .. } => LineKind::DiffHeader,
            LineView::DiffMetadata { .. } => LineKind::DiffMetadata,
            LineView::HunkHeader { .. } => LineKind::HunkHeader,
            LineView::Code { .. } => LineKind::Code,
        }
    }

    /// The byte offset at which the line starts.
    pub open spec fn offset(self) -> nat {
        match self {
            LineView::Text { offset, .. } => offset,
            LineView::DiffHeader { offset, .. } => offset,
            LineView::DiffMetadata { offset, .. } => offset,
            LineView::HunkHeader { offset, .. } => offset,
            LineView::Code { offset, .. } => offset,
        }
    }

    /// The length of the line in bytes, its terminator included.
    pub open spec fn length(self) -> nat {
        match self {
            LineView::Text { length, .. } => length,
            LineView::DiffHeader { length, .. } => length,
            LineView::DiffMetadata { length, .. } => length,
            LineView::HunkHeader { length, .. } => length,
            LineView::Code { length, .. } => length,
        }
    }

    /// The quoting layer of the line.
    pub open spec fn quoting_layer(self) -> nat {
        match self {
            LineView::Text { quoting_layer, .. } => quoting_layer,
            LineView::DiffHeader { quoting_layer, .. } => quoting_layer,
            LineView::DiffMetadata { quoting_layer, .. } => quoting_layer,
            LineView::HunkHeader { quoting_layer, .. } => quoting_layer,
            LineView::Code { quoting_layer, .. } => quoting_layer,
        }
    }

    /// The text of the line, without its terminator.
    pub open spec fn raw(self) -> Seq<char> {
        match self {
            LineView::Text { raw, .. } => raw,
            LineView::DiffHeader { raw, .. } => raw,
            LineView::DiffMetadata { raw, .. } => raw,
            LineView::HunkHeader { raw, .. } => raw,
            LineView::Code { raw, .. } => raw,
        }
    }

    /// The offset just past the line.
    pub open spec fn end(self) -> nat {
        self.offset() + self.length()
    }
}

impl<'a> View for Line<'a> {
    type V = LineView;

    open spec fn view(&self) -> LineView {
        match *self {
            Line::Text { offset, length, quoting_layer, raw } => LineView::Text {
                offset: offset as nat,
                length: length as nat,
                quoting_layer: quoting_layer as nat,
                raw: raw@,
            },
            Line::DiffHeader { offset, length, quoting_layer, file_path, raw } => {
                LineView::DiffHeader {
                    offset: offset as nat,
                    length: length as nat,
                    quoting_layer: quoting_layer as nat,
                    file_path: file_path@,
                    raw: raw@,
                }
            },
            Line::DiffMetadata { offset, length, quoting_layer, raw } => LineView::DiffMetadata {
                offset: offset as nat,
                length: length as nat,
                quoting_layer: quoting_layer as nat,
                raw: raw@,
            },
            Line::HunkHeader { offset, length, quoting_layer, file_path, language, raw } => {
                LineView::HunkHeader {
                    offset: offset as nat,
                    length: length as nat,
                    quoting_layer: quoting_layer as nat,
                    file_path: file_path@,
                    language: language@,
                    raw: raw@,
                }
            },
            Line::Code { offset, length, quoting_layer, kind, file_path, language, raw } => {
                LineView::Code {
                    offset: offset as nat,
                    length: length as nat,
                    quoting_layer: quoting_layer as nat,
                    kind,
                    file_path: file_path@,
                    language: language@,
                    raw: raw@,
                }
            },
        }
    }
}

/// Whether stripped text starts a per-file diff.
pub open spec fn is_diff_header(text: Seq<char>) -> bool {
    has_prefix_at(text, 0, "diff --git"@)
}

/// Whether stripped text starts a hunk.
pub open spec fn is_hunk_header(text: Seq<char>) -> bool {
    has_prefix_at(text, 0, "@@"@)
}

/// The sign of a line of a hunk: that of its first character that is not a
/// blank. A line without such a character, or with any other one, is
/// context.
pub open spec fn sign_of(text: Seq<char>) -> CodeKind
    decreases text.len(),
{
    if text.len() == 0 {
        CodeKind::Context
    } else if is_blank(text[0]) {
        sign_of(text.drop_first())
    } else if text[0] == '+' {
        CodeKind::Add
    } else if text[0] == '-' {
        CodeKind::Remove
    } else {
        CodeKind::Context
    }
}

/// Where word number `n` of `text` starts, counting from zero; words are
/// separated by whitespace. It is the length of `text` when there are not
/// that many words.
pub open spec fn word_start(text: Seq<char>, n: nat) -> int
    decreases n,
{
    if n == 0 {
        skip_whitespace(text, 0)
    } else {
        skip_whitespace(text, skip_word(text, word_start(text, (n - 1) as nat)))
    }
}

/// Where `path`, read from `from`, is rid of every leading `a/`.
pub open spec fn past_side_prefix(path: Seq<char>, from: int) -> int
    decreases path.len() - from,
{
    if 0 <= from && from + 2 <= path.len() && path[from] == 'a' && path[from + 1] == '/' {
        past_side_prefix(path, from + 2)
    } else {
        from
    }
}

/// `path` without any leading `a/`, the mark of the old side of a diff.
pub open spec fn without_side_prefix(path: Seq<char>) -> Seq<char> {
    path.skip(past_side_prefix(path, 0))
}

/// The path that a diff header names: its third word, without the leading
/// `a/`, or `unknown` when the header has no third word.
pub open spec fn file_path_of(header: Seq<char>) -> Seq<char> {
    let start = word_start(header, 2);
    if start < header.len() {
        without_side_prefix(header.subrange(start, skip_word(header, start)))
    } else {
        "unknown"@
    }
}

/// The index of the last full stop in `path`, or -1 when it has none.
pub open spec fn last_dot(path: Seq<char>) -> int
    decreases path.len(),
{
    if path.len() == 0 {
        -1
    } else if path.last() == '.' {
        path.len() - 1
    } else {
        last_dot(path.drop_last())
    }
}

/// The language of a file, from the extension of its path: what follows the
/// last full stop. A path without extension, or with one that the table
/// lacks, has the language `Unknown`.
pub open spec fn language_of(path: Seq<char>) -> Seq<char> {
    let dot = last_dot(path);
    let extension = path.skip(dot + 1);
    if dot < 0 {
        "Unknown"@
    } else if extension == "c"@ {
        "C"@
    } else if extension == "h"@ {
        "C Header"@
    } else if extension == "rs"@ {
        "Rust"@
    } else if extension == "py"@ {
        "Python"@
    } else {
        "Unknown"@
    }
}

/// The state in which every quoting layer starts.
pub open spec fn initial_layer() -> Layer {
    Layer { state: State::Text, file_path: Seq::empty(), language: "Unknown"@ }
}

/// The kind of the record that a layer emits for a line with the stripped
/// text `text`.
pub open spec fn emitted_kind(layer: Layer, text: Seq<char>) -> LineKind {
    match layer.state {
        State::Text => if is_diff_header(text) {
            LineKind::DiffHeader
        } else {
            LineKind::Text
        },
        State::Diff => if is_hunk_header(text) {
            LineKind::HunkHeader
        } else {
            LineKind::DiffMetadata
        },
        State::Hunk | State::Code => if is_hunk_header(text) {
            LineKind::HunkHeader
        } else {
            LineKind::Code
        },
    }
}

/// The layer after a line with the stripped text `text`.
pub open spec fn next_layer(layer: Layer, text: Seq<char>) -> Layer {
    match emitted_kind(layer, text) {
        LineKind::Text | LineKind::DiffMetadata => layer,
        LineKind::DiffHeader => Layer {
            state: State::Diff,
            file_path: file_path_of(text),
            language: language_of(file_path_of(text)),
        },
        LineKind::HunkHeader => Layer { state: State::Hunk, ..layer },
        LineKind::Code => Layer { state: State::Code, ..layer },
    }
}

/// The record of a line with the text `raw` at `offset`, `length` bytes
/// long, met by its layer in the state `layer`.
pub open spec fn record(layer: Layer, offset: nat, length: nat, raw: Seq<char>) -> LineView {
    let quoting_layer = quote_depth(raw);
    let text = stripped(raw);
    let after = next_layer(layer, text);
    match emitted_kind(layer, text) {
        LineKind::Text => LineView::Text { offset, length, quoting_layer, raw },
        LineKind::DiffHeader => LineView::DiffHeader {
            offset,
            length,
            quoting_layer,
            file_path: after.file_path,
            raw,
        },
        LineKind::DiffMetadata => LineView::DiffMetadata { offset, length, quoting_layer, raw },
        LineKind::HunkHeader => LineView::HunkHeader {
            offset,
            length,
            quoting_layer,
            file_path: after.file_path,
            language: after.language,
            raw,
        },
        LineKind::Code => LineView::Code {
            offset,
            length,
            quoting_layer,
            kind: sign_of(text),
            file_path: after.file_path,
            language: after.language,
            raw,
        },
    }
}

/// The state of the quoting layer `depth` before line number `k` of
/// `bytes`: the initial state, advanced by each earlier line of that depth.
pub open spec fn layer_before(bytes: Seq<u8>, k: nat, depth: nat) -> Layer
    decreases k,
{
    if k == 0 {
        initial_layer()
    } else {
        let earlier = layer_before(bytes, (k - 1) as nat, depth);
        let raw = line_text(bytes, (k - 1) as nat);
        if quote_depth(raw) == depth {
            next_layer(earlier, stripped(raw))
        } else {
            earlier
        }
    }
}

/// The record of line number `k` of `bytes`.
pub open spec fn record_at(bytes: Seq<u8>, k: nat) -> LineView {
    let raw = line_text(bytes, k);
    record(
        layer_before(bytes, k, quote_depth(raw)),
        line_start(bytes, k) as nat,
        line_length(bytes, k) as nat,
        raw,
    )
}

/// The leading `a/` marks of a word end at the same place whether they are
/// sought in the word or in the text that holds it.
proof fn side_prefix_in_word(text: Seq<char>, start: int, stop: int, at: int)
    requires
        0 <= start <= at <= stop <= text.len(),
    ensures
        past_side_prefix(text.subrange(start, stop), at - start) == past_side_prefix(
            text.take(stop),
            at,
        ) - start,
    decreases stop - at,
{
    let word = text.subrange(start, stop);
    let head = text.take(stop);
    if at + 2 <= stop {
        assert(word[at - start] == head[at]);
        assert(word[at - start + 1] == head[at + 1]);
        if head[at] == 'a' && head[at + 1] == '/' {
            side_prefix_in_word(text, start, stop, at + 2);
        }
    }
}

/// Extracts the file path from the stripped text of a diff header.
pub fn extract_file_path(diff_line: &str) -> (path: String)
    ensures
        path@ == file_path_of(diff_line@),
{
    let chars = chars_of(diff_line);
    let text = chars.as_slice();
    let first = past_whitespace(text, 0);
    let second = past_whitespace(text, past_word(text, first));
    let third = past_whitespace(text, past_word(text, second));
    proof {
        reveal_with_fuel(word_start, 3);
        assert(third == word_start(text@, 2));
    }
    if third >= text.len() {
        return "unknown".to_owned();
    }
    let stop = past_word(text, third);
    let mut at: usize = third;
    while stop - at >= 2 && text[at] == 'a' && text[at + 1] == '/'
        invariant
            third <= at <= stop <= text.len(),
            past_side_prefix(text@.take(stop as int), third as int) == past_side_prefix(
                text@.take(stop as int),
                at as int,
            ),
        decreases stop - at,
    {
        at += 2;
    }
    proof {
        side_prefix_in_word(text@, third as int, stop as int, third as int);
        let word = text@.subrange(third as int, stop as int);
        assert(word.skip(at - third) =~= text@.subrange(at as int, stop as int));
    }
    diff_line.substring_char(at, stop).to_owned()
}

/// Whether the characters of `text` from `from` on are those of `word`.
fn rest_is(text: &[char], from: usize, word: &str) -> (r: bool)
    requires
        from <= text.len(),
    ensures
        r == (text@.skip(from as int) == word@),
{
    let expected = chars_of(word);
    if text.len() - from != expected.len() {
        return false;
    }
    let r = starts_with_at(text, from, expected.as_slice());
    assert(text@.skip(from as int) =~= text@.subrange(from as int, from + expected@.len()));
    r
}

/// Detects the language of a file from the extension of its path.
pub fn detect_language(file_path: &str) -> (language: String)
    ensures
        language@ == language_of(file_path@),
{
    let chars = chars_of(file_path);
    let path = chars.as_slice();
    let mut end: usize = path.len();
    assert(path@.take(end as int) =~= path@);
    while end > 0 && path[end - 1] != '.'
        invariant
            end <= path.len(),
            last_dot(path@) == last_dot(path@.take(end as int)),
        decreases end,
    {
        assert(path@.take(end as int).drop_last() =~= path@.take(end - 1));
        end -= 1;
    }
    if end == 0 {
        return "Unknown".to_owned();
    }
    assert(last_dot(path@) == end - 1);
    if rest_is(path, end, "c") {
        "C".to_owned()
    } else if rest_is(path, end, "h") {
        "C Header".to_owned()
    } else if rest_is(path, end, "rs") {
        "Rust".to_owned()
    } else if rest_is(path, end, "py") {
        "Python".to_owned()
    } else {
        "Unknown".to_owned()
    }
}

/// The sign of the text that starts at `from`.
fn sign_from(text: &[char], from: usize) -> (kind: CodeKind)
    requires
        from <= text.len(),
    ensures
        kind == sign_of(text@.skip(from as int)),
{
    let mut at: usize = from;
    while at < text.len() && blank(text[at])
        invariant
            from <= at <= text.len(),
            sign_of(text@.skip(from as int)) == sign_of(text@.skip(at as int)),
        decreases text.len() - at,
    {
        assert(text@.skip(at as int).drop_first() =~= text@.skip(at + 1));
        at += 1;
    }
    if at == text.len() {
        CodeKind::Context
    } else if text[at] == '+' {
        CodeKind::Add
    } else if text[at] == '-' {
        CodeKind::Remove
    } else {
        CodeKind::Context
    }
}

/// The sign of a line of a hunk: `Add` for `+`, `Remove` for `-`, `Context`
/// for anything else.
pub fn match_code_kind(line: &str) -> (kind: Option<CodeKind>)
    ensures
        kind == Some(sign_of(line@)),
{
    let chars = chars_of(line);
    assert(chars@.skip(0) =~= chars@);
    Some(sign_from(chars.as_slice(), 0))
}

/// A prefix found at `at` is a prefix of what starts at `at`.
proof fn prefix_of_suffix(text: Seq<char>, at: int, needle: Seq<char>)
    requires
        0 <= at <= text.len(),
    ensures
        has_prefix_at(text, at, needle) == has_prefix_at(text.skip(at), 0, needle),
{
    if at + needle.len() <= text.len() {
        assert(text.skip(at).subrange(0, needle.len() as int) =~= text.subrange(
            at,
            at + needle.len(),
        ));
    }
}

impl LayerState {
    /// A layer that has seen no line yet.
    pub fn new() -> (layer: Self)
        ensures
            layer@ == initial_layer(),
    {
        LayerState { state: State::Text, file_path: String::new(), language: "Unknown".to_owned() }
    }

    /// Takes the line `raw`, whose characters are `chars`, and gives its
    /// record.
    fn advance<'a>(&mut self, offset: usize, length: usize, raw: &'a str, chars: &[char]) -> (line:
        Line<'a>)
        requires
            chars@ == raw@,
        ensures
            final(self)@ == next_layer(old(self)@, stripped(raw@)),
            line@ == record(old(self)@, offset as nat, length as nat, raw@),
    {
        let (prefix, quoting_layer) = scan_quoting(chars);
        let at = past_whitespace(chars, prefix);
        proof {
            prefix_of_suffix(chars@, at as int, "diff --git"@);
            prefix_of_suffix(chars@, at as int, "@@"@);
        }
        match self.state {
            State::Text => {
                let mark = chars_of("diff --git");
                if starts_with_at(chars, at, mark.as_slice()) {
                    let text = raw.substring_char(at, chars.len());
                    let file_path = extract_file_path(text);
                    self.state = State::Diff;
                    self.language = detect_language(file_path.as_str());
                    self.file_path = file_path.clone();
                    Line::DiffHeader { offset, length, quoting_layer, file_path, raw }
                } else {
                    Line::Text { offset, length, quoting_layer, raw }
                }
            },
            State::Diff => {
                let mark = chars_of("@@");
                if starts_with_at(chars, at, mark.as_slice()) {
                    self.state = State::Hunk;
                    Line::HunkHeader {
                        offset,
                        length,
                        quoting_layer,
                        file_path: self.file_path.clone(),
                        language: self.language.clone(),
                        raw,
                    }
                } else {
                    Line::DiffMetadata { offset, length, quoting_layer, raw }
                }
            },
            State::Hunk | State::Code => {
                let mark = chars_of("@@");
                if starts_with_at(chars, at, mark.as_slice()) {
                    self.state = State::Hunk;
                    Line::HunkHeader {
                        offset,
                        length,
                        quoting_layer,
                        file_path: self.file_path.clone(),
                        language: self.language.clone(),
                        raw,
                    }
                } else {
                    self.state = State::Code;
                    Line::Code {
                        offset,
                        length,
                        quoting_layer,
                        kind: sign_from(chars, at),
                        file_path: self.file_path.clone(),
                        language: self.language.clone(),
                        raw,
                    }
                }
            },
        }
    }

    /// One step of the automaton: takes a line of this layer, with the text
    /// `raw` at `offset` and `length` bytes long, moves to the next state
    /// and gives the record of the line.
    pub fn classify<'a>(&mut self, offset: usize, length: usize, raw: &'a str) -> (line: Line<'a>)
        ensures
            final(self)@ == next_layer(old(self)@, stripped(raw@)),
            line@ == record(old(self)@, offset as nat, length as nat, raw@),
    {
        let chars = chars_of(raw);
        self.advance(offset, length, raw, chars.as_slice())
    }
}

/// The state of the layer `depth`, where `layers` holds the layers met so
/// far by their depth: a layer that was not met yet is in its initial
/// state.
pub open spec fn layer_at(layers: Seq<LayerState>, depth: nat) -> Layer {
    if depth < layers.len() {
        layers[depth as int]@
    } else {
        initial_layer()
    }
}

/// Whether `lines` are the records of the lines of `bytes`, in order.
pub open spec fn are_records_of(lines: Seq<Line<'_>>, bytes: Seq<u8>) -> bool {
    &&& line_start(bytes, lines.len()) == bytes.len()
    &&& forall|k: int|
        0 <= k < lines.len() ==> {
            &&& line_start(bytes, k as nat) < bytes.len()
            &&& (#[trigger] lines[k])@ == record_at(bytes, k as nat)
            &&& vstd::utf8::encode_utf8(lines[k]@.raw()) == line_bytes(bytes, k as nat)
        }
}

impl<'a> Line<'a> {
    /// Parses all lines of `source`.
    ///
    /// Every line has an `offset`, a `length`, a `quoting_layer` and its
    /// `raw` text. `DiffHeader`, `HunkHeader` and `Code` lines also have a
    /// `file_path`, `HunkHeader` and `Code` lines a `language`, and `Code`
    /// lines a `kind` that tells an addition from a removal and from
    /// context.
    pub fn parse_lines(source: &'a str) -> (lines: Vec<Line<'a>>)
        ensures
            are_records_of(lines@, source.spec_bytes()),
            forall|k: int| 0 <= k < lines.len() ==> (#[trigger] lines[k]).fits(),
    {
        broadcast use vstd::utf8::group_utf8_lib;

        let ghost bytes = source.spec_bytes();
        let all = source.as_bytes();
        assert(bytes.len() == all.len());
        let mut lines: Vec<Line<'a>> = Vec::new();
        let mut layers: Vec<LayerState> = Vec::new();
        let mut offset: usize = 0;
        let mut rest: &'a str = source;
        assert(bytes.subrange(0, bytes.len() as int) =~= bytes);
        while rest.len() > 0
            invariant
                bytes == source.spec_bytes(),
                bytes.len() <= usize::MAX,
                offset == line_start(bytes, lines.len() as nat),
                offset <= bytes.len(),
                rest.spec_bytes() == bytes.subrange(offset as int, bytes.len() as int),
                forall|depth: nat|
                    layer_at(layers@, depth) == layer_before(bytes, lines.len() as nat, depth),
                forall|k: int|
                    0 <= k < lines.len() ==> {
                        &&& line_start(bytes, k as nat) < bytes.len()
                        &&& (#[trigger] lines[k])@ == record_at(bytes, k as nat)
                        &&& vstd::utf8::encode_utf8(lines[k]@.raw()) == line_bytes(bytes, k as nat)
                        &&& lines[k].fits()
                    },
            decreases bytes.len() - offset,
        {
            let ghost k = lines.len() as nat;
            let (raw, length, next) = split_line(rest);
            proof {
                first_line_of_suffix(bytes, offset as int);
                line_stop_bounds(bytes, offset as int);
                assert(raw.spec_bytes() =~= line_bytes(bytes, k));
                vstd::utf8::encode_utf8_decode_utf8(raw@);
                assert(raw@ == line_text(bytes, k));
                assert(next.spec_bytes() =~= bytes.subrange(
                    offset + length,
                    bytes.len() as int,
                ));
            }
            let chars = chars_of(raw);
            let depth = scan_quoting(chars.as_slice()).1;
            while layers.len() <= depth
                invariant
                    forall|d: nat| layer_at(layers@, d) == layer_before(bytes, k, d),
                decreases depth + 1 - layers.len(),
            {
                let ghost before = layers@;
                layers.push(LayerState::new());
                assert forall|d: nat| layer_at(layers@, d) == layer_at(before, d) by {}
            }
            let ghost before = layers@;
            let line = layers[depth].advance(offset, length, raw, chars.as_slice());
            assert forall|d: nat| layer_at(layers@, d) == layer_before(bytes, k + 1, d) by {
                assert(layer_at(before, d) == layer_before(bytes, k, d));
            }
            lines.push(line);
            offset = offset + length;
            rest = next;
        }
        lines
    }

    /// Whether the end of the line can be told: `offset + length` is a
    /// `usize`.
    pub open spec fn fits(&self) -> bool {
        self@.end() <= usize::MAX
    }

    /// The raw text of the line.
    pub fn get_raw(&self) -> (raw: &'a str)
        ensures
            raw@ == self@.raw(),
    {
        match self {
            Line::Text { raw, .. } => raw,
            Line::DiffHeader { raw, .. } => raw,
            Line::DiffMetadata { raw, .. } => raw,
            Line::HunkHeader { raw, .. } => raw,
            Line::Code { raw, .. } => raw,
        }
    }

    /// The quoting layer of the line.
    pub fn get_quoting_layer(&self) -> (depth: usize)
        ensures
            depth == self@.quoting_layer(),
    {
        match self {
            Line::Text { quoting_layer, .. } => *quoting_layer,
            Line::DiffHeader { quoting_layer, .. } => *quoting_layer,
            Line::DiffMetadata { quoting_layer, .. } => *quoting_layer,
            Line::HunkHeader { quoting_layer, .. } => *quoting_layer,
            Line::Code { quoting_layer, .. } => *quoting_layer,
        }
    }

    /// The byte offset at which the line starts.
    pub fn get_offset(&self) -> (offset: usize)
        ensures
            offset == self@.offset(),
    {
        match self {
            Line::Text { offset, .. } => *offset,
            Line::DiffHeader { offset, .. } => *offset,
            Line::DiffMetadata { offset, .. } => *offset,
            Line::HunkHeader { offset, .. } => *offset,
            Line::Code { offset, .. } => *offset,
        }
    }

    /// The length of the line in bytes, its terminator included.
    pub fn get_length(&self) -> (length: usize)
        ensures
            length == self@.length(),
    {
        match self {
            Line::Text { length, .. } => *length,
            Line::DiffHeader { length, .. } => *length,
            Line::DiffMetadata { length, .. } => *length,
            Line::HunkHeader { length, .. } => *length,
            Line::Code { length, .. } => *length,
        }
    }

    /// The byte offset just past the line.
    pub fn get_end_offset(&self) -> (end: usize)
        requires
            self.fits(),
        ensures
            end == self@.end(),
    {
        self.get_offset() + self.get_length()
    }

    /// The kind of the line.
    pub fn get_kind(&self) -> (kind: LineKind)
        ensures
            kind == self@.kind(),
    {
        match self {
            Line::Text { .. } => LineKind::Text,
            Line::DiffHeader { .. } => LineKind::DiffHeader,
            Line::DiffMetadata { .. } => LineKind::DiffMetadata,
            Line::HunkHeader { .. } => LineKind::HunkHeader,
            Line::Code { .. } => LineKind::Code,
        }
    }

    /// Whether two lines belong to the same quoting layer.
    pub fn same_quoting_layer(&self, other: &Self) -> (same: bool)
        ensures
            same == (self@.quoting_layer() == other@.quoting_layer()),
    {
        self.get_quoting_layer() == other.get_quoting_layer()
    }

    /// Whether two lines are of the same kind.
    pub fn same_variant(&self, other: &Self) -> (same: bool)
        ensures
            same == (self@.kind() == other@.kind()),
    {
        self.get_kind() == other.get_kind()
    }
}

/// The records of a buffer partition it: the first starts at offset zero,
/// each starts where the one before it ends, the last ends with the
/// buffer, and none is empty. The range of a record begins with the bytes
/// of its raw text; what is left of it is the line terminator.
pub proof fn records_partition_input(lines: Seq<Line<'_>>, bytes: Seq<u8>)
    requires
        are_records_of(lines, bytes),
    ensures
        lines.len() == 0 <==> bytes.len() == 0,
        lines.len() > 0 ==> lines[0]@.offset() == 0 && lines.last()@.end() == bytes.len(),
        forall|k: int|
            0 <= k < lines.len() - 1 ==> (#[trigger] lines[k])@.end() == lines[k + 1]@.offset(),
        forall|k: int|
            0 <= k < lines.len() ==> {
                let line = (#[trigger] lines[k])@;
                let text = vstd::utf8::encode_utf8(line.raw());
                &&& 0 < line.length()
                &&& line.end() <= bytes.len()
                &&& text.len() <= line.length() <= text.len() + 2
                &&& bytes.subrange(line.offset() as int, (line.offset() + text.len()) as int) == text
            },
{
    assert forall|k: int| 0 <= k < lines.len() implies {
        let line = (#[trigger] lines[k])@;
        let text = vstd::utf8::encode_utf8(line.raw());
        &&& line.offset() == line_start(bytes, k as nat)
        &&& line.end() == line_start(bytes, (k + 1) as nat)
        &&& 0 < line.length()
        &&& line.end() <= bytes.len()
        &&& text.len() <= line.length() <= text.len() + 2
        &&& bytes.subrange(line.offset() as int, (line.offset() + text.len()) as int) == text
    } by {
        line_start_bounds(bytes, k as nat);
        lines_cover_buffer(bytes, k as nat);
    }
    if lines.len() > 0 {
        assert(lines[0]@.offset() == 0);
        assert(lines.last() == lines[lines.len() - 1]);
    } else {
        assert(line_start(bytes, 0) == 0);
    }
    assert forall|k: int| 0 <= k < lines.len() - 1 implies (#[trigger] lines[k])@.end() == lines[k
        + 1]@.offset() by {
        assert(lines[k + 1]@.offset() == line_start(bytes, (k + 1) as nat));
    }
}

/// A line changes the state of its own quoting layer only.
pub proof fn layers_are_independent(bytes: Seq<u8>, k: nat, depth: nat)
    requires
        quote_depth(line_text(bytes, k)) != depth,
    ensures
        layer_before(bytes, k + 1, depth) == layer_before(bytes, k, depth),
{
}

/// The stripped texts of the lines of `bytes` before line `k` that are of
/// the quoting layer `depth`, in order.
pub open spec fn own_lines(bytes: Seq<u8>, k: nat, depth: nat) -> Seq<Seq<char>>
    decreases k,
{
    if k == 0 {
        Seq::empty()
    } else {
        let earlier = own_lines(bytes, (k - 1) as nat, depth);
        let raw = line_text(bytes, (k - 1) as nat);
        if quote_depth(raw) == depth {
            earlier.push(stripped(raw))
        } else {
            earlier
        }
    }
}

/// The state of a layer that has taken lines with the stripped texts
/// `texts`, starting from its initial state.
pub open spec fn layer_after(texts: Seq<Seq<char>>) -> Layer
    decreases texts.len(),
{
    if texts.len() == 0 {
        initial_layer()
    } else {
        next_layer(layer_after(texts.drop_last()), texts.last())
    }
}

/// The state of a quoting layer depends on the lines of that layer alone:
/// it is what the automaton reaches on these lines, whatever lines of
/// other layers stand between them.
pub proof fn layer_depends_on_own_lines(bytes: Seq<u8>, k: nat, depth: nat)
    ensures
        layer_before(bytes, k, depth) == layer_after(own_lines(bytes, k, depth)),
    decreases k,
{
    if k > 0 {
        layer_depends_on_own_lines(bytes, (k - 1) as nat, depth);
        let earlier = own_lines(bytes, (k - 1) as nat, depth);
        let raw = line_text(bytes, (k - 1) as nat);
        if quote_depth(raw) == depth {
            assert(earlier.push(stripped(raw)).drop_last() =~= earlier);
        }
    }
}

/// No line leads a layer back to `Text` once it has left it.
pub proof fn no_way_back_to_text(layer: Layer, text: Seq<char>)
    requires
        layer.state != State::Text,
    ensures
        next_layer(layer, text).state != State::Text,
{
}

/// A diff header followed by a hunk header leads a layer from `Text` to
/// `Diff` and on to `Hunk`, and gives one record for each: a `DiffHeader`
/// and a `HunkHeader` with the path and the language of the diff header.
pub proof fn header_then_hunk(
    layer: Layer,
    header: Seq<char>,
    hunk: Seq<char>,
)
    requires
        layer.state == State::Text,
        is_diff_header(stripped(header)),
        is_hunk_header(stripped(hunk)),
    ensures
        ({
            let first = record(layer, 0, header.len(), header);
            let between = next_layer(layer, stripped(header));
            let second = record(between, header.len(), hunk.len(), hunk);
            let after = next_layer(between, stripped(hunk));
            &&& between.state == State::Diff
            &&& after.state == State::Hunk
            &&& first matches LineView::DiffHeader { file_path, .. } && file_path == file_path_of(
                stripped(header),
            )
            &&& second matches LineView::HunkHeader { file_path, language, .. } && file_path
                == file_path_of(stripped(header)) && language == language_of(
                file_path_of(stripped(header)),
            )
        }),
{
}

/// A line inside a hunk that is no hunk header gives a `Code` record, with
/// the sign that its stripped text starts with: `Remove` for `-`, `Add`
/// for `+`, and `Context` for any other character or none.
pub proof fn code_lines_carry_their_sign(layer: Layer, offset: nat, length: nat, raw: Seq<char>)
    requires
        layer.state == State::Hunk || layer.state == State::Code,
        !is_hunk_header(stripped(raw)),
    ensures
        next_layer(layer, stripped(raw)).state == State::Code,
        record(layer, offset, length, raw) matches LineView::Code { kind, file_path, language, .. }
            && file_path == layer.file_path && language == layer.language && kind == (if stripped(
            raw,
        ).len() > 0 && stripped(raw)[0] == '-' {
            CodeKind::Remove
        } else if stripped(raw).len() > 0 && stripped(raw)[0] == '+' {
            CodeKind::Add
        } else {
            CodeKind::Context
        }),
{
    let text = stripped(raw);
    quote_prefix_is_maximal(raw);
    skip_whitespace_bounds(raw, quote_prefix_len(raw) as int);
    if text.len() > 0 {
        assert(text[0] == raw[skip_whitespace(raw, quote_prefix_len(raw) as int)]);
        assert(!is_blank(text[0]));
    }
}

} // verus!
