//! Highlighting of code: the lines of a piece of code are parsed and styled
//! by syntect, and rendered as HTML spans. A line that syntect cannot parse
//! is rendered in one fallback colour, and parsing starts afresh behind it.
//!
//! syntect can abort on a syntax set that was put together by hand. The
//! functions here ask for the set that comes with syntect, and for a syntax
//! that was found in it; `default_syntaxes` and the lookups give both.

use vstd::prelude::*;
use vstd::string::*;
use syntect::highlighting::{
    Color, FontStyle, HighlightIterator, HighlightState, Highlighter, Style, Theme,
};
use syntect::html::{append_highlighted_html_for_styled_line, IncludeBackground};
use syntect::parsing::{
    ParseState, ParsingError, ScopeStack, ScopeStackOp, SyntaxReference, SyntaxSet,
};
use crate::text::{chars_of, texts};

verus! {

/// syntect's `SyntaxSet`, carried through as it is.
#[verifier::external_type_specification]
#[verifier::external_body]
pub struct ExSyntaxSet(SyntaxSet);

/// syntect's `SyntaxReference`: a syntax of a syntax set.
#[verifier::external_type_specification]
#[verifier::external_body]
pub struct ExSyntaxReference(SyntaxReference);

/// syntect's `Theme`.
#[verifier::external_type_specification]
#[verifier::external_body]
pub struct ExTheme(Theme);

/// syntect's `ParseState`: where its parser stands between two lines.
#[verifier::external_type_specification]
#[verifier::external_body]
pub struct ExParseState(ParseState);

/// syntect's `ParsingError`: why a line could not be parsed.
#[verifier::external_type_specification]
#[verifier::external_body]
pub struct ExParsingError(ParsingError);

/// syntect's `ScopeStackOp`: one scope change within a line.
#[verifier::external_type_specification]
#[verifier::external_body]
pub struct ExScopeStackOp(ScopeStackOp);

/// syntect's `HighlightState`: the styles in force between two lines.
#[verifier::external_type_specification]
#[verifier::external_body]
pub struct ExHighlightState(HighlightState);

/// syntect's `Highlighter`: a theme made ready for styling.
#[verifier::external_type_specification]
#[verifier::external_body]
pub struct ExHighlighter<'a>(Highlighter<'a>);

/// A colour with its transparency.
#[derive(Debug, Clone, Copy, PartialEq, Eq)]
pub struct Rgba {
    pub r: u8,
    pub g: u8,
    pub b: u8,
    pub a: u8,
}

/// How a piece of text is to look: its colours, and its font style as
/// syntect's bits (1 bold, 2 underline, 4 italic).
#[derive(Debug, Clone, Copy, PartialEq, Eq)]
pub struct TextStyle {
    pub foreground: Rgba,
    pub background: Rgba,
    pub font_style: u8,
}

/// A piece of a line with its style.
#[derive(Debug, Clone, PartialEq, Eq)]
pub struct StyledText {
    pub style: TextStyle,
    pub text: String,
}

pub struct StyledTextView {
    pub style: TextStyle,
    pub text: Seq<char>,
}

impl View for StyledText {
    type V = StyledTextView;

    open spec fn view(&self) -> StyledTextView {
        StyledTextView { style: self.style, text: self.text@ }
    }
}

/// The views of a list of styled pieces.
pub open spec fn piece_views(pieces: Seq<StyledText>) -> Seq<StyledTextView> {
    pieces.map_values(|p: StyledText| p@)
}

/// What became of one line: it could not be parsed, or it was parsed and
/// cut into styled pieces.
#[derive(Debug, Clone, PartialEq, Eq)]
pub enum LineOutcome {
    Unparsed,
    Styled(Vec<StyledText>),
}

pub enum LineOutcomeView {
    Unparsed,
    Styled(Seq<StyledTextView>),
}

impl View for LineOutcome {
    type V = LineOutcomeView;

    open spec fn view(&self) -> LineOutcomeView {
        match self {
            LineOutcome::Unparsed => LineOutcomeView::Unparsed,
            LineOutcome::Styled(pieces) => LineOutcomeView::Styled(piece_views(pieces@)),
        }
    }
}

/// A line together with the scope changes that syntect's parser found in
/// it. Only the parser makes one, so the two always belong together.
pub struct ParsedLine {
    text: String,
    changes: Vec<(usize, ScopeStackOp)>,
}

impl ParsedLine {
    /// The line that was parsed.
    pub closed spec fn line(&self) -> Seq<char> {
        self.text@
    }
}

/// A theme together with the highlighter that syntect made of it. Only
/// `Highlighter::new` makes one, so the two always belong together.
pub struct Styler<'a> {
    theme: &'a Theme,
    highlighter: Highlighter<'a>,
}

impl<'a> Styler<'a> {
    /// The theme that the highlighter was made of.
    pub closed spec fn theme(&self) -> Theme {
        *self.theme
    }
}

/// The set is the one that comes with syntect, as
/// `SyntaxSet::load_defaults_newlines` hands it out. That syntect parses
/// and styles with this set without aborting is taken on trust: its source
/// does not show it for every pattern, and the tests of this crate
/// highlight a text in each syntax of the set.
pub uninterp spec fn bundled(set: SyntaxSet) -> bool;

/// The syntax is one of the set's.
pub uninterp spec fn syntax_of(set: SyntaxSet, syntax: SyntaxReference) -> bool;

/// The syntax that the set finds for a token: a file extension or a syntax
/// name, without regard to case.
pub uninterp spec fn found_by_token(set: SyntaxSet, token: Seq<char>) -> Option<SyntaxReference>;

/// The syntax of that name in the set.
pub uninterp spec fn found_by_name(set: SyntaxSet, name: Seq<char>) -> Option<SyntaxReference>;

/// The syntax that the set finds for a text with that first line.
pub uninterp spec fn found_by_first_line(set: SyntaxSet, line: Seq<char>) -> Option<
    SyntaxReference,
>;

/// The parser at the start of a text in that syntax.
pub uninterp spec fn fresh_parse(syntax: SyntaxReference) -> ParseState;

/// The parser stems from a syntax of the set.
pub uninterp spec fn parses_with(state: ParseState, set: SyntaxSet) -> bool;

/// What parsing one line gives: the parser behind the line, and the parsed
/// line where parsing succeeds.
pub uninterp spec fn parse_step(state: ParseState, line: Seq<char>, set: SyntaxSet) -> (
    ParseState,
    Option<ParsedLine>,
);

/// The styles in force at the start of a text, under that theme.
pub uninterp spec fn fresh_highlight(theme: Theme) -> HighlightState;

/// What styling one parsed line gives: the styles in force behind the line,
/// and the styled pieces of the line.
pub uninterp spec fn style_step(state: HighlightState, parsed: ParsedLine, theme: Theme) -> (
    HighlightState,
    Seq<StyledTextView>,
);

/// The two hexadecimal digits of a byte, in lower case.
pub open spec fn hex(byte: u8) -> Seq<char> {
    seq!["0123456789abcdef"@[byte as int / 16], "0123456789abcdef"@[byte as int % 16]]
}

/// A colour as CSS writes it: `#rrggbb`, with the transparency behind it
/// where the colour is not opaque.
pub open spec fn css_color(red: u8, green: u8, blue: u8, alpha: u8) -> Seq<char> {
    "#"@ + hex(red) + hex(green) + hex(blue) + if alpha == 255 {
        Seq::empty()
    } else {
        hex(alpha)
    }
}

/// Whether a font style has the bit of that value (1 bold, 2 underline,
/// 4 italic).
pub open spec fn has_bit(font_style: u8, bit: int) -> bool {
    (font_style as int / bit) % 2 == 1
}

/// A font style as CSS properties: underline, bold, italic, in that order.
pub open spec fn font_css(font_style: u8) -> Seq<char> {
    (if has_bit(font_style, 2) {
        "text-decoration:underline;"@
    } else {
        Seq::empty()
    }) + (if has_bit(font_style, 1) {
        "font-weight:bold;"@
    } else {
        Seq::empty()
    }) + (if has_bit(font_style, 4) {
        "font-style:italic;"@
    } else {
        Seq::empty()
    })
}

/// A character as HTML text: the five characters that HTML reads as markup
/// are written as entities.
pub open spec fn escaped_char(c: char) -> Seq<char> {
    if c == '<' {
        "&lt;"@
    } else if c == '>' {
        "&gt;"@
    } else if c == '&' {
        "&amp;"@
    } else if c == '\'' {
        "&#39;"@
    } else if c == '"' {
        "&quot;"@
    } else {
        seq![c]
    }
}

/// A text as HTML text.
pub open spec fn escaped(text: Seq<char>) -> Seq<char>
    decreases text.len(),
{
    if text.len() == 0 {
        Seq::empty()
    } else {
        escaped(text.drop_last()) + escaped_char(text.last())
    }
}

/// The HTML span that syntect writes for one piece of text with the given
/// foreground colour and font style, without a background.
pub open spec fn span_html(
    red: u8,
    green: u8,
    blue: u8,
    alpha: u8,
    font_style: u8,
    text: Seq<char>,
) -> Seq<char> {
    "<span style=\""@ + font_css(font_style) + "color:"@ + css_color(red, green, blue, alpha)
        + ";\">"@ + escaped(text) + "</span>"@
}

/// Where the first line of `s` ends: behind its first line break, or at the
/// end of `s` where there is none.
pub open spec fn line_end(s: Seq<char>) -> int
    decreases s.len(),
{
    if s.len() == 0 {
        0
    } else if s[0] == '\n' {
        1
    } else {
        1 + line_end(s.skip(1))
    }
}

/// The lines of `s`, each with its line break.
pub open spec fn lines_of(s: Seq<char>) -> Seq<Seq<char>>
    decreases s.len(),
{
    let cut = line_end(s);
    if 0 < cut <= s.len() {
        seq![s.take(cut)] + lines_of(s.skip(cut))
    } else {
        Seq::empty()
    }
}

/// The span that stands for a line that could not be parsed.
pub open spec fn fallback_span(color: Seq<char>, text: Seq<char>) -> Seq<char> {
    "<span style='color:"@ + color + ";'>"@ + text + "</span>"@
}

/// The spans of styled pieces, one after the other.
pub open spec fn spans(pieces: Seq<StyledTextView>) -> Seq<char>
    decreases pieces.len(),
{
    if pieces.len() == 0 {
        Seq::empty()
    } else {
        let piece = pieces.last();
        spans(pieces.drop_last()) + span_html(
            piece.style.foreground.r,
            piece.style.foreground.g,
            piece.style.foreground.b,
            piece.style.foreground.a,
            piece.style.font_style,
            piece.text,
        )
    }
}

/// The texts of styled pieces, one after the other.
pub open spec fn piece_texts(pieces: Seq<StyledTextView>) -> Seq<char>
    decreases pieces.len(),
{
    if pieces.len() == 0 {
        Seq::empty()
    } else {
        piece_texts(pieces.drop_last()) + pieces.last().text
    }
}

/// The pieces are cut from the start of `line`: none is empty, and their
/// texts, one after the other, are the line or the beginning of it.
pub open spec fn cut_from(pieces: Seq<StyledTextView>, line: Seq<char>) -> bool {
    &&& piece_texts(pieces).is_prefix_of(line)
    &&& forall|i: int| 0 <= i < pieces.len() ==> (#[trigger] pieces[i]).text.len() > 0
}

/// The outcome is one of `line`: where the line was styled, its pieces are
/// cut from it.
pub open spec fn outcome_of(outcome: LineOutcomeView, line: Seq<char>) -> bool {
    match outcome {
        LineOutcomeView::Unparsed => true,
        LineOutcomeView::Styled(pieces) => cut_from(pieces, line),
    }
}

/// The line was parsed with the set that comes with syntect, by a parser
/// that stems from a syntax of that set.
pub open spec fn soundly_parsed(parsed: ParsedLine) -> bool {
    exists|state: ParseState, line: Seq<char>, set: SyntaxSet|
        bundled(set) && parses_with(state, set) && parse_step(state, line, set).1 == Some(
            parsed,
        )
}

/// What becomes of each of `lines` when they are parsed and styled one
/// after the other, from the given parser and styles on: a line that is
/// parsed is cut into its styled pieces; a line that is not leaves the
/// styles as they are and sets the parser back to the start.
pub open spec fn outcomes_from(
    parse: ParseState,
    highlight: HighlightState,
    set: SyntaxSet,
    syntax: SyntaxReference,
    theme: Theme,
    lines: Seq<Seq<char>>,
) -> Seq<LineOutcomeView>
    decreases lines.len(),
{
    if lines.len() == 0 {
        Seq::empty()
    } else {
        let parsed = parse_step(parse, lines[0], set);
        match parsed.1 {
            Some(line) => {
                let styled = style_step(highlight, line, theme);
                seq![LineOutcomeView::Styled(styled.1)] + outcomes_from(
                    parsed.0,
                    styled.0,
                    set,
                    syntax,
                    theme,
                    lines.skip(1),
                )
            },
            None => seq![LineOutcomeView::Unparsed] + outcomes_from(
                fresh_parse(syntax),
                highlight,
                set,
                syntax,
                theme,
                lines.skip(1),
            ),
        }
    }
}

/// What becomes of each of `lines` when a text that is made of them is
/// highlighted from its start.
pub open spec fn outcomes(
    set: SyntaxSet,
    syntax: SyntaxReference,
    theme: Theme,
    lines: Seq<Seq<char>>,
) -> Seq<LineOutcomeView> {
    outcomes_from(fresh_parse(syntax), fresh_highlight(theme), set, syntax, theme, lines)
}

/// What one line is rendered as.
pub open spec fn rendered_line(
    outcome: LineOutcomeView,
    fallback_color: Seq<char>,
    line: Seq<char>,
) -> Seq<char> {
    match outcome {
        LineOutcomeView::Unparsed => fallback_span(fallback_color, line),
        LineOutcomeView::Styled(pieces) => spans(pieces),
    }
}

/// What lines are rendered as, given what became of each.
pub open spec fn rendered(
    lines: Seq<Seq<char>>,
    outcomes: Seq<LineOutcomeView>,
    fallback_color: Seq<char>,
) -> Seq<char>
    decreases lines.len(),
{
    if lines.len() == 0 {
        Seq::empty()
    } else {
        rendered(lines.drop_last(), outcomes.drop_last(), fallback_color) + rendered_line(
            outcomes.last(),
            fallback_color,
            lines.last(),
        )
    }
}

/// The first line ends within the text, and behind its start where there
/// is text.
pub proof fn lemma_line_end(s: Seq<char>)
    ensures
        0 <= line_end(s) <= s.len(),
        s.len() > 0 ==> line_end(s) > 0,
    decreases s.len(),
{
    if s.len() > 0 && s[0] != '\n' {
        lemma_line_end(s.skip(1));
    }
}

/// Calls `SyntaxSet::load_defaults_newlines`: the syntaxes that come with
/// syntect.
#[verifier::external_body]
fn load_default_set() -> (set: SyntaxSet)
    ensures
        bundled(set),
{
    SyntaxSet::load_defaults_newlines()
}

/// Calls `SyntaxSet::find_syntax_by_token`, which looks for a syntax with
/// that file extension, then for one with that name, both without regard
/// to case. What it finds is a syntax of the set.
#[verifier::external_body]
fn find_by_token<'a>(syntax_set: &'a SyntaxSet, token: &str) -> (r: Option<&'a SyntaxReference>)
    ensures
        match r {
            Some(syntax) => found_by_token(*syntax_set, token@) == Some(*syntax) && syntax_of(
                *syntax_set,
                *syntax,
            ),
            None => found_by_token(*syntax_set, token@) is None,
        },
{
    syntax_set.find_syntax_by_token(token)
}

/// Calls `SyntaxSet::find_syntax_by_name`, which looks for the syntax of
/// exactly that name. What it finds is a syntax of the set.
#[verifier::external_body]
fn find_by_name<'a>(syntax_set: &'a SyntaxSet, name: &str) -> (r: Option<&'a SyntaxReference>)
    ensures
        match r {
            Some(syntax) => found_by_name(*syntax_set, name@) == Some(*syntax) && syntax_of(
                *syntax_set,
                *syntax,
            ),
            None => found_by_name(*syntax_set, name@) is None,
        },
{
    syntax_set.find_syntax_by_name(name)
}

/// Calls `SyntaxSet::find_syntax_by_first_line`, which tries the
/// first-line patterns of the syntaxes on the line. What it finds is a
/// syntax of the set. The patterns are compiled on the way, and syntect
/// aborts on one that does not compile: the set has to be the one that
/// comes with syntect, whose first-line patterns the tests of this crate
/// have all compiled by looking for a line that matches none.
#[verifier::external_body]
fn find_by_first_line<'a>(syntax_set: &'a SyntaxSet, line: &str) -> (r: Option<
    &'a SyntaxReference,
>)
    requires
        bundled(*syntax_set),
    ensures
        match r {
            Some(syntax) => found_by_first_line(*syntax_set, line@) == Some(*syntax) && syntax_of(
                *syntax_set,
                *syntax,
            ),
            None => found_by_first_line(*syntax_set, line@) is None,
        },
{
    syntax_set.find_syntax_by_first_line(line)
}

/// Calls `ParseState::new`: a parser at the start of a text. syntect takes
/// the start context of the syntax and aborts where there is none; the
/// syntaxes of the set that comes with syntect each have one. The set is
/// asked for on that account alone.
#[verifier::external_body]
fn new_parse_state(syntax_set: &SyntaxSet, syntax: &SyntaxReference) -> (state: ParseState)
    requires
        bundled(*syntax_set),
        syntax_of(*syntax_set, *syntax),
    ensures
        state == fresh_parse(*syntax),
        parses_with(state, *syntax_set),
{
    ParseState::new(syntax)
}

/// Calls `Highlighter::new`, which makes the theme ready for styling, and
/// keeps the theme beside what it made.
#[verifier::external_body]
fn new_styler<'a>(theme: &'a Theme) -> (styler: Styler<'a>)
    ensures
        styler.theme() == *theme,
{
    Styler { theme, highlighter: Highlighter::new(theme) }
}

/// Calls `HighlightState::new` with an empty scope stack: the styles at the
/// start of a text.
#[verifier::external_body]
fn new_highlight_state(styler: &Styler) -> (state: HighlightState)
    ensures
        state == fresh_highlight(styler.theme()),
{
    HighlightState::new(&styler.highlighter, ScopeStack::new())
}

/// Calls `ParseState::parse_line` and keeps the line beside the changes
/// that it found. The contract names what it gives, as that depends on the
/// parser, the line and the set alone. syntect asks that the parser stems
/// from a syntax of the set. It compiles each pattern at first use, one
/// with back-references anew from the text of the line, and aborts on one
/// that does not compile. That this does not happen with the set that comes
/// with syntect is taken on trust; the tests of this crate highlight a text
/// in each of its syntaxes.
#[verifier::external_body]
fn parse_line(state: &mut ParseState, line: &str, syntax_set: &SyntaxSet) -> (r: Result<
    ParsedLine,
    ParsingError,
>)
    requires
        bundled(*syntax_set),
        parses_with(*old(state), *syntax_set),
    ensures
        *final(state) == parse_step(*old(state), line@, *syntax_set).0,
        parses_with(*final(state), *syntax_set),
        match r {
            Ok(parsed) => parse_step(*old(state), line@, *syntax_set).1 == Some(parsed)
                && parsed.line() == line@,
            Err(_) => parse_step(*old(state), line@, *syntax_set).1 is None,
        },
{
    let changes = state.parse_line(line, syntax_set)?;
    Ok(ParsedLine { text: line.to_string(), changes })
}

/// Walks `HighlightIterator` over a parsed line and hands out the pieces
/// that it yields, each with its style as plain values. The contract names
/// what it gives, as that depends on the styles in force, the parsed line
/// and the theme alone. syntect cuts the line at the positions of the
/// changes, from its start onwards, and passes over empty pieces; it stops
/// early where a change cannot be applied. So the pieces are cut from the
/// start of the line. syntect does not test that the positions are in
/// order and within the line; those that it found in a line with the set
/// that comes with it are.
#[verifier::external_body]
fn style_regions(state: &mut HighlightState, parsed: &ParsedLine, styler: &Styler) -> (pieces: Vec<
    StyledText,
>)
    requires
        soundly_parsed(*parsed),
    ensures
        *final(state) == style_step(*old(state), *parsed, styler.theme()).0,
        piece_views(pieces@) == style_step(*old(state), *parsed, styler.theme()).1,
        cut_from(piece_views(pieces@), parsed.line()),
{
    HighlightIterator::new(state, &parsed.changes, parsed.text.as_str(), &styler.highlighter).map(
        |(s, text)| {
            let (f, b) = (s.foreground, s.background);
            let foreground = Rgba { r: f.r, g: f.g, b: f.b, a: f.a };
            let background = Rgba { r: b.r, g: b.g, b: b.b, a: b.a };
            let style = TextStyle { foreground, background, font_style: s.font_style.bits() };
            StyledText { style, text: text.to_string() }
        },
    ).collect()
}

/// Calls `append_highlighted_html_for_styled_line` on one piece, without
/// background. For one piece syntect appends one span: the opening tag
/// with the font properties and the foreground colour, the escaped text,
/// and the closing tag. The call only fails where writing fails, and
/// writing to a string does not.
#[verifier::external_body]
fn append_span(piece: &StyledText, output: &mut String)
    ensures
        final(output)@ == old(output)@ + span_html(
            piece.style.foreground.r,
            piece.style.foreground.g,
            piece.style.foreground.b,
            piece.style.foreground.a,
            piece.style.font_style,
            piece.text@,
        ),
{
    let (f, b) = (piece.style.foreground, piece.style.background);
    let style = Style {
        foreground: Color { r: f.r, g: f.g, b: f.b, a: f.a },
        background: Color { r: b.r, g: b.g, b: b.b, a: b.a },
        font_style: FontStyle::from_bits_truncate(piece.style.font_style),
    };
    let _ = append_highlighted_html_for_styled_line(
        &[(style, piece.text.as_str())],
        IncludeBackground::No,
        output,
    );
}

/// The span that stands for text that could not be parsed: the text as it
/// is, in the fallback colour.
pub fn apply_fallback_style(color: &str, text: &str) -> (r: String)
    ensures
        r@ == fallback_span(color@, text@),
{
    let mut r = String::from_str("<span style='color:");
    r.append(color);
    r.append(";'>");
    r.append(text);
    r.append("</span>");
    r
}

/// Appends what one line is rendered as: the fallback span of the line
/// where it could not be parsed, the spans of its pieces where it could.
pub fn render_line(outcome: &LineOutcome, fallback_color: &str, line: &str, output: &mut String)
    ensures
        final(output)@ == old(output)@ + rendered_line(outcome@, fallback_color@, line@),
{
    match outcome {
        LineOutcome::Unparsed => {
            let span = apply_fallback_style(fallback_color, line);
            output.append(span.as_str());
        },
        LineOutcome::Styled(pieces) => {
            let ghost views = piece_views(pieces@);
            let mut i: usize = 0;
            assert(old(output)@ + spans(views.take(0)) =~= old(output)@);
            while i < pieces.len()
                invariant
                    i <= pieces.len(),
                    views == piece_views(pieces@),
                    output@ == old(output)@ + spans(views.take(i as int)),
                decreases pieces.len() - i,
            {
                let ghost before = output@;
                append_span(&pieces[i], output);
                proof {
                    let more = views.take(i + 1);
                    assert(more.drop_last() =~= views.take(i as int));
                    assert(more.last() == pieces@[i as int]@);
                    assert(output@ =~= old(output)@ + spans(more));
                }
                i += 1;
            }
            assert(views.take(pieces@.len() as int) =~= views);
        },
    }
}

/// The lines of `content`, each with its line break.
pub fn split_lines(content: &str) -> (lines: Vec<String>)
    ensures
        texts(lines@) == lines_of(content@),
{
    let chars = chars_of(content);
    let n = chars.len();
    let mut lines: Vec<String> = Vec::new();
    let mut start: usize = 0;
    proof {
        assert(content@.skip(0) =~= content@);
        assert(texts(lines@) + lines_of(content@.skip(0)) =~= lines_of(content@));
    }
    while start < n
        invariant
            start <= n,
            n == chars@.len(),
            chars@ == content@,
            texts(lines@) + lines_of(content@.skip(start as int)) == lines_of(content@),
        decreases n - start,
    {
        let ghost rest = content@.skip(start as int);
        let mut end: usize = start;
        let mut found = false;
        while end < n && !found
            invariant
                start <= end <= n,
                n == chars@.len(),
                chars@ == content@,
                rest == content@.skip(start as int),
                !found ==> line_end(rest) == (end - start) + line_end(content@.skip(end as int)),
                found ==> line_end(rest) == end - start,
                found ==> end > start,
            decreases n - end + (if found { 0int } else { 1int }),
        {
            let ghost tail = content@.skip(end as int);
            proof {
                assert(tail[0] == chars@[end as int]);
                assert(tail.skip(1) =~= content@.skip(end + 1));
            }
            if chars[end] == '\n' {
                found = true;
            }
            end += 1;
        }
        proof {
            if !found {
                assert(content@.skip(n as int).len() == 0);
            }
            lemma_line_end(rest);
            assert(line_end(rest) == end - start);
            assert(rest.take(end - start) =~= content@.subrange(start as int, end as int));
            assert(rest.skip(end - start) =~= content@.skip(end as int));
        }
        let line = content.substring_char(start, end);
        let ghost before = texts(lines@);
        lines.push(String::from_str(line));
        proof {
            assert(texts(lines@) =~= before.push(line@));
            assert(texts(lines@) + lines_of(content@.skip(end as int)) =~= before + lines_of(rest));
        }
        start = end;
    }
    proof {
        assert(content@.skip(n as int).len() == 0);
        assert(texts(lines@) + lines_of(content@.skip(n as int)) =~= texts(lines@));
    }
    lines
}

/// The syntaxes that come with syntect.
pub fn default_syntaxes() -> (set: SyntaxSet)
    ensures
        bundled(set),
{
    load_default_set()
}

/// The syntax that the set finds for a token: a file extension or a syntax
/// name, without regard to case.
pub fn syntax_for_token<'a>(syntax_set: &'a SyntaxSet, token: &str) -> (r: Option<
    &'a SyntaxReference,
>)
    ensures
        match r {
            Some(syntax) => found_by_token(*syntax_set, token@) == Some(*syntax) && syntax_of(
                *syntax_set,
                *syntax,
            ),
            None => found_by_token(*syntax_set, token@) is None,
        },
{
    find_by_token(syntax_set, token)
}

/// The syntax of that name in the set.
pub fn syntax_for_name<'a>(syntax_set: &'a SyntaxSet, name: &str) -> (r: Option<
    &'a SyntaxReference,
>)
    ensures
        match r {
            Some(syntax) => found_by_name(*syntax_set, name@) == Some(*syntax) && syntax_of(
                *syntax_set,
                *syntax,
            ),
            None => found_by_name(*syntax_set, name@) is None,
        },
{
    find_by_name(syntax_set, name)
}

/// The syntax that the set finds for a text with that first line.
pub fn syntax_for_first_line<'a>(syntax_set: &'a SyntaxSet, line: &str) -> (r: Option<
    &'a SyntaxReference,
>)
    requires
        bundled(*syntax_set),
    ensures
        match r {
            Some(syntax) => found_by_first_line(*syntax_set, line@) == Some(*syntax) && syntax_of(
                *syntax_set,
                *syntax,
            ),
            None => found_by_first_line(*syntax_set, line@) is None,
        },
{
    find_by_first_line(syntax_set, line)
}

/// Renders `content` as highlighted HTML, in the given syntax and in the
/// colours of `theme`.
///
/// The set has to be the one that comes with syntect, and the syntax one
/// of that set. The result is made of the renderings of the lines of
/// `content`, in their order: for each line either its fallback span in
/// `fallback_color`, where syntect could not parse it, or the spans of the
/// pieces that syntect cut from it.
pub fn highlight(
    syntax_set: &SyntaxSet,
    syntax: &SyntaxReference,
    content: &str,
    theme: &Theme,
    fallback_color: &str,
) -> (html: String)
    requires
        bundled(*syntax_set),
        syntax_of(*syntax_set, *syntax),
    ensures
        html@ == rendered(
            lines_of(content@),
            outcomes(*syntax_set, *syntax, *theme, lines_of(content@)),
            fallback_color@,
        ),
        outcomes(*syntax_set, *syntax, *theme, lines_of(content@)).len() == lines_of(
            content@,
        ).len(),
        forall|i: int|
            0 <= i < lines_of(content@).len() ==> outcome_of(
                #[trigger] outcomes(*syntax_set, *syntax, *theme, lines_of(content@))[i],
                lines_of(content@)[i],
            ),
{
    let styler = new_styler(theme);
    let mut highlight_state = new_highlight_state(&styler);
    let mut parse_state = new_parse_state(syntax_set, syntax);
    let lines = split_lines(content);
    let mut output = String::new();
    let ghost all = texts(lines@);
    let ghost mut done: Seq<LineOutcomeView> = Seq::empty();
    let mut i: usize = 0;
    proof {
        assert(all.take(0) =~= Seq::<Seq<char>>::empty());
        assert(all.skip(0) =~= all);
        assert(done + outcomes(*syntax_set, *syntax, *theme, all) =~= outcomes(
            *syntax_set,
            *syntax,
            *theme,
            all,
        ));
    }
    while i < lines.len()
        invariant
            i <= lines.len(),
            all == texts(lines@),
            bundled(*syntax_set),
            syntax_of(*syntax_set, *syntax),
            parses_with(parse_state, *syntax_set),
            styler.theme() == *theme,
            done.len() == i,
            done + outcomes_from(
                parse_state,
                highlight_state,
                *syntax_set,
                *syntax,
                *theme,
                all.skip(i as int),
            ) == outcomes(*syntax_set, *syntax, *theme, all),
            forall|j: int| 0 <= j < i ==> outcome_of(#[trigger] done[j], all[j]),
            output@ == rendered(all.take(i as int), done, fallback_color@),
        decreases lines.len() - i,
    {
        let line = lines[i].as_str();
        let ghost parse_before = parse_state;
        let ghost style_before = highlight_state;
        let ghost rest = all.skip(i as int);
        proof {
            assert(rest[0] == line@);
            assert(rest.skip(1) =~= all.skip(i + 1));
        }
        let outcome = match parse_line(&mut parse_state, line, syntax_set) {
            Ok(parsed) => {
                proof {
                    assert(parse_step(parse_before, line@, *syntax_set).1 == Some(parsed));
                }
                LineOutcome::Styled(style_regions(&mut highlight_state, &parsed, &styler))
            },
            Err(_) => {
                parse_state = new_parse_state(syntax_set, syntax);
                LineOutcome::Unparsed
            },
        };
        render_line(&outcome, fallback_color, line, &mut output);
        proof {
            let before = done;
            done = done.push(outcome@);
            assert(all.take(i + 1).drop_last() =~= all.take(i as int));
            assert(all.take(i + 1).last() == line@);
            assert(done.drop_last() =~= before);
            assert(outcomes_from(
                parse_before,
                style_before,
                *syntax_set,
                *syntax,
                *theme,
                rest,
            ) =~= seq![outcome@] + outcomes_from(
                parse_state,
                highlight_state,
                *syntax_set,
                *syntax,
                *theme,
                all.skip(i + 1),
            ));
            assert(done + outcomes_from(
                parse_state,
                highlight_state,
                *syntax_set,
                *syntax,
                *theme,
                all.skip(i + 1),
            ) =~= outcomes(*syntax_set, *syntax, *theme, all));
        }
        i += 1;
    }
    proof {
        assert(all.take(lines@.len() as int) =~= all);
        assert(all.skip(lines@.len() as int).len() == 0);
        assert(done =~= outcomes(*syntax_set, *syntax, *theme, all));
    }
    output
}

/// Renders `content` as highlighted HTML, in the syntax that the set finds
/// for `token`. There is a result exactly where the set finds one, and it
/// is what `highlight` gives for that syntax.
pub fn highlight_token(
    syntax_set: &SyntaxSet,
    token: &str,
    content: &str,
    theme: &Theme,
    fallback_color: &str,
) -> (r: Option<String>)
    requires
        bundled(*syntax_set),
    ensures
        match (r, found_by_token(*syntax_set, token@)) {
            (Some(html), Some(syntax)) => html@ == rendered(
                lines_of(content@),
                outcomes(*syntax_set, syntax, *theme, lines_of(content@)),
                fallback_color@,
            ),
            (None, None) => true,
            _ => false,
        },
{
    match find_by_token(syntax_set, token) {
        Some(syntax) => Some(highlight(syntax_set, syntax, content, theme, fallback_color)),
        None => None,
    }
}

/// Renders `content` as highlighted HTML with the syntaxes that come with
/// syntect: it loads them and looks for the syntax of `token` among them.
/// There is a result exactly where they hold one, and it is what
/// `highlight` gives for that syntax.
pub fn highlight_default(token: &str, content: &str, theme: &Theme, fallback_color: &str) -> (r:
    Option<String>)
    ensures
        exists|set: SyntaxSet|
            bundled(set) && match (r, #[trigger] found_by_token(set, token@)) {
                (Some(html), Some(syntax)) => html@ == rendered(
                    lines_of(content@),
                    outcomes(set, syntax, *theme, lines_of(content@)),
                    fallback_color@,
                ),
                (None, None) => true,
                _ => false,
            },
{
    let set = load_default_set();
    let r = highlight_token(&set, token, content, theme, fallback_color);
    proof {
        assert(bundled(set) && match (r, found_by_token(set, token@)) {
            (Some(html), Some(syntax)) => html@ == rendered(
                lines_of(content@),
                outcomes(set, syntax, *theme, lines_of(content@)),
                fallback_color@,
            ),
            (None, None) => true,
            _ => false,
        });
    }
    r
}

} // verus!
