//! Rendering for a terminal: colours for the classes of a syntax
//! highlighter and for the reply markers of quoted lines.
use crate::parser::quoting::{quote_prefix_len, scan_quoting};
use crate::parser::split::{first_line_of_suffix, line_stop, line_stop_bounds, split_line, text_stop};
use crate::text::{chars_of, is_piece, piece_of, same_text};
use vstd::prelude::*;
use vstd::string::*;
use vstd::utf8::*;

verus! {

/// One step of a highlighter over a code fragment: a piece of the source
/// by its byte range, the start of a highlight of some class, or the end
/// of the innermost highlight.
#[derive(Debug, Clone, Copy, PartialEq, Eq, Structural)]
pub enum HighlightEvent {
    Source { start: usize, end: usize },
    HighlightStart(usize),
    HighlightEnd,
}

/// Why a fragment could not be highlighted.
#[derive(Debug, Clone, Copy, PartialEq, Eq, Structural)]
pub enum HighlightError {
    /// The highlight rules of a language were refused.
    Configuration,
    /// The highlighter failed on the fragment.
    Engine,
    /// The highlighter named a piece that is not a piece of the fragment.
    Range,
}

/// The escape sequence that ends all styling.
pub open spec fn reset_code() -> Seq<char> {
    "\x1b[0m"@
}

/// The escape sequence that starts the colour of a highlight class. The
/// classes are, from zero: function, type, string, keyword, number,
/// comment, constant, operator and variable; the last one and any class
/// beyond it have no colour.
pub open spec fn ansi_code(class: usize) -> Seq<char> {
    if class == 0 {
        "\x1b[1;34m"@
    } else if class == 1 {
        "\x1b[1;36m"@
    } else if class == 2 {
        "\x1b[0;32m"@
    } else if class == 3 {
        "\x1b[1;35m"@
    } else if class == 4 {
        "\x1b[0;36m"@
    } else if class == 5 {
        "\x1b[0;90m"@
    } else if class == 6 {
        "\x1b[1;33m"@
    } else if class == 7 {
        "\x1b[1;31m"@
    } else {
        reset_code()
    }
}

/// Converts a highlight class to its escape sequence.
pub fn ansi_for_class(class: usize) -> (code: &'static str)
    ensures
        code@ == ansi_code(class),
{
    match class {
        0 => "\x1b[1;34m",
        1 => "\x1b[1;36m",
        2 => "\x1b[0;32m",
        3 => "\x1b[1;35m",
        4 => "\x1b[0;36m",
        5 => "\x1b[0;90m",
        6 => "\x1b[1;33m",
        7 => "\x1b[1;31m",
        _ => "\x1b[0m",
    }
}

/// Whether every source event of `events` names a piece of `bytes`.
pub open spec fn are_renderable(bytes: Seq<u8>, events: Seq<HighlightEvent>) -> bool {
    forall|i: int|
        0 <= i < events.len() ==> (#[trigger] events[i] matches HighlightEvent::Source {
            start,
            end,
        } ==> is_piece(bytes, start as int, end as int))
}

/// What one event adds to the output.
pub open spec fn event_text(bytes: Seq<u8>, event: HighlightEvent) -> Seq<char> {
    match event {
        HighlightEvent::Source { start, end } => decode_utf8(
            bytes.subrange(start as int, end as int),
        ),
        HighlightEvent::HighlightStart(class) => ansi_code(class),
        HighlightEvent::HighlightEnd => reset_code(),
    }
}

/// The output for `events` over the fragment `bytes`: the text of each
/// event, in order.
pub open spec fn rendered(bytes: Seq<u8>, events: Seq<HighlightEvent>) -> Seq<char>
    decreases events.len(),
{
    if events.len() == 0 {
        Seq::empty()
    } else {
        rendered(bytes, events.drop_last()) + event_text(bytes, events.last())
    }
}

/// Renders the events of a highlighter over `code`: source pieces as they
/// are, the start of a highlight as the colour of its class, its end as a
/// reset. Fails when a source event does not name a piece of `code`.
pub fn render_events(code: &str, events: &[HighlightEvent]) -> (out: Result<
    String,
    HighlightError,
>)
    ensures
        out is Ok <==> are_renderable(code.spec_bytes(), events@),
        out matches Ok(text) ==> text@ == rendered(code.spec_bytes(), events@),
        out matches Err(error) ==> error == HighlightError::Range,
{
    let mut output = String::new();
    let mut at: usize = 0;
    assert(events@.take(0) =~= Seq::empty());
    while at < events.len()
        invariant
            at <= events.len(),
            are_renderable(code.spec_bytes(), events@.take(at as int)),
            output@ == rendered(code.spec_bytes(), events@.take(at as int)),
        decreases events.len() - at,
    {
        let ghost before = events@.take(at as int);
        let ghost next = events@.take(at + 1);
        assert(next.drop_last() =~= before);
        assert(next.last() == events@[at as int]);
        match events[at] {
            HighlightEvent::Source { start, end } => {
                match piece_of(code, start, end) {
                    Some(text) => output.append(text),
                    None => {
                        return Err(HighlightError::Range);
                    },
                }
            },
            HighlightEvent::HighlightStart(class) => output.append(ansi_for_class(class)),
            HighlightEvent::HighlightEnd => output.append("\x1b[0m"),
        }
        assert forall|i: int| 0 <= i < next.len() implies (#[trigger] next[i] matches HighlightEvent::Source {
            start,
            end,
        } ==> is_piece(code.spec_bytes(), start as int, end as int)) by {
            if i < at {
                assert(next[i] == before[i]);
            }
        }
        at += 1;
    }
    assert(events@.take(at as int) =~= events@);
    Ok(output)
}

/// The escape sequence that starts the colour of reply markers.
pub open spec fn mark_code() -> Seq<char> {
    "\x1b[34m"@
}

/// The first `upto` characters of `line`, each reply marker among them
/// wrapped in the colour of reply markers and a reset.
pub open spec fn painted_marks(line: Seq<char>, upto: int) -> Seq<char>
    decreases upto,
{
    if upto <= 0 || upto > line.len() {
        Seq::empty()
    } else if line[upto - 1] == '>' {
        painted_marks(line, upto - 1) + mark_code() + ">"@ + reset_code()
    } else {
        painted_marks(line, upto - 1).push(line[upto - 1])
    }
}

/// `line` with the reply markers of its quoting prefix painted; what
/// follows the prefix is left as it is.
pub open spec fn painted_line(line: Seq<char>) -> Seq<char> {
    painted_marks(line, quote_prefix_len(line) as int) + line.skip(quote_prefix_len(line) as int)
}

/// The characters of a line terminator of `length` bytes.
pub open spec fn terminator(length: int) -> Seq<char> {
    if length == 1 {
        "\n"@
    } else if length == 2 {
        "\r\n"@
    } else {
        Seq::empty()
    }
}

/// The text of `bytes` from the line that starts at `from` on, each line
/// painted and followed by its own terminator.
pub open spec fn painted_text(bytes: Seq<u8>, from: int) -> Seq<char>
    decreases bytes.len() - from,
{
    if from < 0 || from >= bytes.len() || !(from < line_stop(bytes, from) <= bytes.len()) {
        Seq::empty()
    } else {
        painted_line(decode_utf8(bytes.subrange(from, text_stop(bytes, from)))) + terminator(
            line_stop(bytes, from) - text_stop(bytes, from),
        ) + painted_text(bytes, line_stop(bytes, from))
    }
}

/// A line that is not quoted and starts with no blank is left as it is.
pub proof fn unquoted_line_is_kept(line: Seq<char>)
    requires
        quote_prefix_len(line) == 0,
    ensures
        painted_line(line) == line,
{
    assert(line.skip(0) =~= line);
}

/// Paints the reply markers at the start of `line`.
pub fn paint_line(line: &str) -> (out: String)
    ensures
        out@ == painted_line(line@),
{
    let chars = chars_of(line);
    let prefix = scan_quoting(chars.as_slice()).0;
    let mut out = String::new();
    let mut at: usize = 0;
    while at < prefix
        invariant
            at <= prefix <= chars.len(),
            prefix == quote_prefix_len(chars@),
            out@ == painted_marks(chars@, at as int),
        decreases prefix - at,
    {
        if chars[at] == '>' {
            out.append("\x1b[34m");
            out.append(">");
            out.append("\x1b[0m");
        } else if chars[at] == ' ' {
            proof {
                reveal_strlit(" ");
            }
            out.append(" ");
            assert(out@ =~= painted_marks(chars@, at as int).push(' '));
        } else {
            proof {
                reveal_strlit("\t");
                crate::parser::quoting::quote_prefix_is_maximal(chars@);
            }
            out.append("\t");
            assert(out@ =~= painted_marks(chars@, at as int).push('\t'));
        }
        at += 1;
    }
    out.append(line.substring_char(prefix, chars.len()));
    assert(chars@.subrange(prefix as int, chars.len() as int) =~= chars@.skip(prefix as int));
    out
}

/// Paints the reply markers at the start of each line of `text`. Nothing
/// else of the text is changed.
pub fn highlight_quoting_marks(text: &str) -> (out: String)
    ensures
        out@ == painted_text(text.spec_bytes(), 0),
{
    let ghost bytes = text.spec_bytes();
    let all = text.as_bytes();
    assert(bytes.len() == all.len());
    let mut out = String::new();
    let mut rest: &str = text;
    let mut offset: usize = 0;
    assert(bytes.subrange(0, bytes.len() as int) =~= bytes);
    while rest.len() > 0
        invariant
            bytes == text.spec_bytes(),
            bytes.len() <= usize::MAX,
            offset <= bytes.len(),
            rest.spec_bytes() == bytes.subrange(offset as int, bytes.len() as int),
            painted_text(bytes, 0) == out@ + painted_text(bytes, offset as int),
        decreases bytes.len() - offset,
    {
        let ghost before = out@;
        let (raw, length, next) = split_line(rest);
        proof {
            first_line_of_suffix(bytes, offset as int);
            line_stop_bounds(bytes, offset as int);
            encode_utf8_decode_utf8(raw@);
            assert(raw.spec_bytes() =~= bytes.subrange(
                offset as int,
                text_stop(bytes, offset as int),
            ));
            assert(next.spec_bytes() =~= bytes.subrange(offset + length, bytes.len() as int));
        }
        let painted = paint_line(raw);
        out.append(painted.as_str());
        let ending = length - raw.len();
        if ending == 1 {
            out.append("\n");
        } else if ending == 2 {
            out.append("\r\n");
        }
        assert(out@ =~= before + (painted_line(raw@) + terminator(ending as int)));
        offset = offset + length;
        rest = next;
    }
    out
}

/// The highlight rules of one language.
#[verifier::external_type_specification]
#[verifier::external_body]
pub struct ExHighlightConfiguration(tree_sitter_highlight::HighlightConfiguration);

/// The highlighter: a parser and what it keeps between calls.
#[verifier::external_type_specification]
#[verifier::external_body]
pub struct ExHighlighter(tree_sitter_highlight::Highlighter);

/// Why highlight rules were refused.
#[verifier::external_type_specification]
#[verifier::external_body]
pub struct ExQueryError(tree_sitter::QueryError);

/// Why the highlighter failed.
#[verifier::external_type_specification]
#[verifier::external_body]
pub struct ExHighlightFailure(tree_sitter_highlight::Error);

/// `tree_sitter_highlight::HighlightConfiguration::new` with the grammar
/// and the queries of `tree_sitter_c`: the highlight rules for C under the
/// name `name`, or the reason why the queries were refused. Nothing is
/// claimed of either.
#[verifier::external_body]
fn c_rules(name: &str, injection_query: &str) -> Result<
    tree_sitter_highlight::HighlightConfiguration,
    tree_sitter::QueryError,
> {
    tree_sitter_highlight::HighlightConfiguration::new(
        tree_sitter_c::LANGUAGE.into(),
        name,
        tree_sitter_c::HIGHLIGHT_QUERY,
        injection_query,
        tree_sitter_c::TAGS_QUERY,
    )
}

/// `tree_sitter_highlight::HighlightConfiguration::configure`: sets the
/// names of the classes that the rules tell apart. Nothing is claimed of
/// the rules afterwards.
#[verifier::external_body]
fn configure(rules: &mut tree_sitter_highlight::HighlightConfiguration, names: &Vec<&'static str>) {
    rules.configure(names.as_slice());
}

/// `tree_sitter_highlight::Highlighter::new`: a fresh highlighter.
#[verifier::external_body]
fn new_highlighter() -> tree_sitter_highlight::Highlighter {
    tree_sitter_highlight::Highlighter::new()
}

/// The events that `highlighter` gives for the fragment `code` under
/// `rules`, in order, or nothing where it fails on the fragment.
pub uninterp spec fn highlighted(
    highlighter: tree_sitter_highlight::Highlighter,
    rules: tree_sitter_highlight::HighlightConfiguration,
    code: Seq<char>,
) -> Option<Seq<HighlightEvent>>;

/// `tree_sitter_highlight::Highlighter::highlight`, without injected
/// languages and without a way to cancel: the events for `code` under
/// `rules`, in order, or nothing when the highlighter or one of its events
/// fails.
#[verifier::external_body]
fn highlight_events(
    highlighter: &mut tree_sitter_highlight::Highlighter,
    rules: &tree_sitter_highlight::HighlightConfiguration,
    code: &str,
) -> (events: Result<Vec<HighlightEvent>, tree_sitter_highlight::Error>)
    ensures
        events matches Ok(list) ==> highlighted(*old(highlighter), *rules, code@) == Some(list@),
        events is Err ==> highlighted(*old(highlighter), *rules, code@) is None,
{
    let events = highlighter.highlight(rules, code.as_bytes(), None, None, |_| None)?;
    events.map(|event| event.map(|event| match event {
        tree_sitter_highlight::HighlightEvent::Source { start, end } => HighlightEvent::Source { start, end },
        tree_sitter_highlight::HighlightEvent::HighlightStart(class) => HighlightEvent::HighlightStart(class.0),
        tree_sitter_highlight::HighlightEvent::HighlightEnd => HighlightEvent::HighlightEnd,
    })).collect()
}

/// The name of a highlight class, as highlight rules spell it.
pub open spec fn class_name(class: int) -> Seq<char> {
    if class == 0 {
        "function"@
    } else if class == 1 {
        "type"@
    } else if class == 2 {
        "string"@
    } else if class == 3 {
        "keyword"@
    } else if class == 4 {
        "number"@
    } else if class == 5 {
        "comment"@
    } else if class == 6 {
        "constant"@
    } else if class == 7 {
        "operator"@
    } else {
        "variable"@
    }
}

/// The names of the nine highlight classes, each at the index that is its
/// class.
pub fn class_names() -> (names: Vec<&'static str>)
    ensures
        names@.len() == 9,
        forall|class: int| 0 <= class < 9 ==> (#[trigger] names@[class])@ == class_name(class),
{
    let mut names: Vec<&'static str> = Vec::with_capacity(9);
    names.push("function");
    names.push("type");
    names.push("string");
    names.push("keyword");
    names.push("number");
    names.push("comment");
    names.push("constant");
    names.push("operator");
    names.push("variable");
    names
}

/// The rules of one language under its name.
pub struct LanguageRules {
    name: String,
    rules: tree_sitter_highlight::HighlightConfiguration,
}

/// Highlights code of the languages it has rules for, and paints the
/// reply markers of text.
pub struct HighlighterEngine {
    configs: Vec<LanguageRules>,
    highlighter: tree_sitter_highlight::Highlighter,
}

impl HighlighterEngine {
    /// The names of the languages that the engine has rules for.
    pub closed spec fn languages(&self) -> Seq<Seq<char>> {
        self.configs@.map_values(|entry: LanguageRules| entry.name@)
    }

    /// Whether the engine has rules for `lang`.
    pub open spec fn knows(&self, lang: Seq<char>) -> bool {
        self.languages().contains(lang)
    }

    /// The rules that the engine uses for `lang`: the first under that
    /// name.
    spec fn rules_for(&self, lang: Seq<char>) -> tree_sitter_highlight::HighlightConfiguration {
        self.configs@[self.languages().index_of_first(lang).unwrap()].rules
    }

    /// The events that the highlighter of the engine gives for the
    /// fragment `code` under the rules for `lang`, or nothing where it
    /// fails on the fragment.
    pub closed spec fn events_for(&self, lang: Seq<char>, code: Seq<char>) -> Option<
        Seq<HighlightEvent>,
    > {
        highlighted(self.highlighter, self.rules_for(lang), code)
    }

    /// An engine with the rules for C, under the name `c`.
    pub fn new() -> (engine: Result<Self, HighlightError>)
        ensures
            engine matches Ok(made) ==> made.languages() == seq!["c"@],
            engine matches Err(error) ==> error == HighlightError::Configuration,
    {
        let mut rules = match c_rules("c", "") {
            Ok(rules) => rules,
            Err(_) => {
                return Err(HighlightError::Configuration);
            },
        };
        let names = class_names();
        configure(&mut rules, &names);
        let mut configs: Vec<LanguageRules> = Vec::new();
        configs.push(LanguageRules { name: "c".to_owned(), rules });
        let made = HighlighterEngine { configs, highlighter: new_highlighter() };
        assert(made.languages() =~= seq!["c"@]);
        Ok(made)
    }

    /// Where the rules for `lang` stand, if the engine has them.
    fn find(&self, lang: &str) -> (at: Option<usize>)
        ensures
            at is Some <==> self.knows(lang@),
            at matches Some(index) ==> index < self.configs@.len() && self.configs@[index as int].rules
                == self.rules_for(lang@),
    {
        let mut at: usize = 0;
        while at < self.configs.len()
            invariant
                at <= self.configs.len(),
                forall|i: int| 0 <= i < at ==> self.configs@[i].name@ != lang@,
            decreases self.configs.len() - at,
        {
            if same_text(self.configs[at].name.as_str(), lang) {
                proof {
                    let names = self.languages();
                    assert(names[at as int] == lang@);
                    assert(names.contains(lang@));
                    names.index_of_first_ensures(lang@);
                    let first = names.index_of_first(lang@).unwrap();
                    assert(first == at) by {
                        if first < at {
                            assert(self.configs@[first].name@ != lang@);
                        }
                    }
                }
                return Some(at);
            }
            at += 1;
        }
        assert forall|i: int| 0 <= i < self.languages().len() implies self.languages()[i]
            != lang@ by {}
        None
    }

    /// Whether `out` is what highlighting the fragment `code` of the
    /// language `lang` gives: the fragment as it is when the engine has no
    /// rules for the language; else the events of the highlighter,
    /// rendered, or the reason why there are none or why they cannot be
    /// rendered.
    pub open spec fn is_outcome(
        self,
        lang: Seq<char>,
        code: Seq<char>,
        out: Result<String, HighlightError>,
    ) -> bool {
        if !self.knows(lang) {
            out matches Ok(text) && text@ == code
        } else {
            match self.events_for(lang, code) {
                None => out == Err::<String, HighlightError>(HighlightError::Engine),
                Some(events) => if are_renderable(encode_utf8(code), events) {
                    out matches Ok(text) && text@ == rendered(encode_utf8(code), events)
                } else {
                    out == Err::<String, HighlightError>(HighlightError::Range)
                },
            }
        }
    }

    /// Highlights the fragment `code` of the language `lang`. A fragment
    /// of a language without rules is given back as it is.
    pub fn highlight_code(&mut self, lang: &str, code: &str) -> (out: Result<
        String,
        HighlightError,
    >)
        ensures
            final(self).languages() == old(self).languages(),
            old(self).is_outcome(lang@, code@, out),
    {
        let at = match self.find(lang) {
            Some(at) => at,
            None => {
                return Ok(code.to_owned());
            },
        };
        let events = match highlight_events(&mut self.highlighter, &self.configs[at].rules, code) {
            Ok(events) => events,
            Err(_) => {
                return Err(HighlightError::Engine);
            },
        };
        render_events(code, events.as_slice())
    }

    /// Highlights a piece of text: its reply markers are painted.
    pub fn highlight_text(&mut self, text: &str) -> (out: String)
        ensures
            *final(self) == *old(self),
            out@ == painted_text(text.spec_bytes(), 0),
    {
        highlight_quoting_marks(text)
    }

    /// Highlights a diff header: its reply markers are painted.
    pub fn highlight_diffh(&mut self, diffh: &str) -> (out: String)
        ensures
            *final(self) == *old(self),
            out@ == painted_text(diffh.spec_bytes(), 0),
    {
        highlight_quoting_marks(diffh)
    }

    /// Highlights the metadata of a diff: its reply markers are painted.
    pub fn highlight_diffm(&mut self, diffm: &str) -> (out: String)
        ensures
            *final(self) == *old(self),
            out@ == painted_text(diffm.spec_bytes(), 0),
    {
        highlight_quoting_marks(diffm)
    }
}

} // verus!
