//! Text in the colours of the terminal report.

use vstd::prelude::*;
use colored::Colorize;
use crate::text::concatenated;
#[allow(unused_imports)]
use crate::text::{
    concat, contains_text, join, join_of_two, occurs_at, split_text,
    splitting_at_a_text_cuts_at_the_first, string_views,
};

verus! {

/// How a piece of text looks.
#[derive(Debug, Clone, Copy, PartialEq, Eq, Structural)]
pub enum Style {
    Plain,
    Dimmed,
    Blue,
    BrightBlack,
    BrightCyan,
    BrightWhite,
    BrightYellow,
    ItalicBrightBlack,
    BoldBrightBlue,
    BoldBrightCyan,
    BoldBrightGreen,
    BoldBrightMagenta,
    BoldBrightWhite,
}

/// The escape sequence that switches the terminal to the numbered attributes.
pub open spec fn escape(codes: Seq<char>) -> Seq<char> {
    seq!['\u{1b}', '['] + codes + seq!['m']
}

/// The escape sequence that switches all attributes off.
pub open spec fn reset() -> Seq<char> {
    escape(seq!['0'])
}

/// `text` between the escape sequences of the attributes, which are switched on again wherever
/// the text switches them off.
pub open spec fn colored_text(text: Seq<char>, codes: Seq<char>) -> Seq<char> {
    escape(codes) + join(split_text(text, reset()), reset() + escape(codes)) + reset()
}

/// Is `out` what is written of `text`: coloured, or, where colours are off, the text itself?
pub open spec fn is_painted(out: Seq<char>, text: Seq<char>, codes: Seq<char>) -> bool {
    out == text || out == colored_text(text, codes)
}

/// Calls `dimmed` of the crate `colored` and writes the outcome to a string: the text with
/// attribute 2, or plain. Whether colours are on depends on the environment and on the crate's own
/// switch, and is left open.
#[verifier::external_body]
fn dimmed(text: &str) -> (r: String)
    ensures
        is_painted(r@, text@, seq!['2']),
{
    text.dimmed().to_string()
}

/// Calls `blue` of the crate `colored` and writes the outcome to a string: the text with attribute
/// 34, or plain. Whether colours are on is left open.
#[verifier::external_body]
fn blue(text: &str) -> (r: String)
    ensures
        is_painted(r@, text@, seq!['3', '4']),
{
    text.blue().to_string()
}

/// Calls `bright_black` of the crate `colored` and writes the outcome to a string: the text with
/// attribute 90, or plain. Whether colours are on is left open.
#[verifier::external_body]
fn bright_black(text: &str) -> (r: String)
    ensures
        is_painted(r@, text@, seq!['9', '0']),
{
    text.bright_black().to_string()
}

/// Calls `bright_cyan` of the crate `colored` and writes the outcome to a string: the text with
/// attribute 96, or plain. Whether colours are on is left open.
#[verifier::external_body]
fn bright_cyan(text: &str) -> (r: String)
    ensures
        is_painted(r@, text@, seq!['9', '6']),
{
    text.bright_cyan().to_string()
}

/// Calls `bright_white` of the crate `colored` and writes the outcome to a string: the text with
/// attribute 97, or plain. Whether colours are on is left open.
#[verifier::external_body]
fn bright_white(text: &str) -> (r: String)
    ensures
        is_painted(r@, text@, seq!['9', '7']),
{
    text.bright_white().to_string()
}

/// Calls `bright_yellow` of the crate `colored` and writes the outcome to a string: the text with
/// attribute 93, or plain. Whether colours are on is left open.
#[verifier::external_body]
fn bright_yellow(text: &str) -> (r: String)
    ensures
        is_painted(r@, text@, seq!['9', '3']),
{
    text.bright_yellow().to_string()
}

/// Calls `bright_black` and `italic` of the crate `colored` and writes the outcome to a string: the
/// text with attributes 3 and 90, or plain. Whether colours are on is left open.
#[verifier::external_body]
fn italic_bright_black(text: &str) -> (r: String)
    ensures
        is_painted(r@, text@, seq!['3', ';', '9', '0']),
{
    text.bright_black().italic().to_string()
}

/// Calls `bright_blue` and `bold` of the crate `colored` and writes the outcome to a string: the
/// text with attributes 1 and 94, or plain. Whether colours are on is left open.
#[verifier::external_body]
fn bold_bright_blue(text: &str) -> (r: String)
    ensures
        is_painted(r@, text@, seq!['1', ';', '9', '4']),
{
    text.bright_blue().bold().to_string()
}

/// Calls `bright_cyan` and `bold` of the crate `colored` and writes the outcome to a string: the
/// text with attributes 1 and 96, or plain. Whether colours are on is left open.
#[verifier::external_body]
fn bold_bright_cyan(text: &str) -> (r: String)
    ensures
        is_painted(r@, text@, seq!['1', ';', '9', '6']),
{
    text.bright_cyan().bold().to_string()
}

/// Calls `bright_green` and `bold` of the crate `colored` and writes the outcome to a string: the
/// text with attributes 1 and 92, or plain. Whether colours are on is left open.
#[verifier::external_body]
fn bold_bright_green(text: &str) -> (r: String)
    ensures
        is_painted(r@, text@, seq!['1', ';', '9', '2']),
{
    text.bright_green().bold().to_string()
}

/// Calls `bright_magenta` and `bold` of the crate `colored` and writes the outcome to a string: the
/// text with attributes 1 and 95, or plain. Whether colours are on is left open.
#[verifier::external_body]
fn bold_bright_magenta(text: &str) -> (r: String)
    ensures
        is_painted(r@, text@, seq!['1', ';', '9', '5']),
{
    text.bright_magenta().bold().to_string()
}

/// Calls `bright_white` and `bold` of the crate `colored` and writes the outcome to a string: the
/// text with attributes 1 and 97, or plain. Whether colours are on is left open.
#[verifier::external_body]
fn bold_bright_white(text: &str) -> (r: String)
    ensures
        is_painted(r@, text@, seq!['1', ';', '9', '7']),
{
    text.bright_white().bold().to_string()
}

/// The attributes of a style; none for plain text.
pub open spec fn style_codes(style: Style) -> Option<Seq<char>> {
    match style {
        Style::Plain => None,
        Style::Dimmed => Some(seq!['2']),
        Style::Blue => Some(seq!['3', '4']),
        Style::BrightBlack => Some(seq!['9', '0']),
        Style::BrightCyan => Some(seq!['9', '6']),
        Style::BrightWhite => Some(seq!['9', '7']),
        Style::BrightYellow => Some(seq!['9', '3']),
        Style::ItalicBrightBlack => Some(seq!['3', ';', '9', '0']),
        Style::BoldBrightBlue => Some(seq!['1', ';', '9', '4']),
        Style::BoldBrightCyan => Some(seq!['1', ';', '9', '6']),
        Style::BoldBrightGreen => Some(seq!['1', ';', '9', '2']),
        Style::BoldBrightMagenta => Some(seq!['1', ';', '9', '5']),
        Style::BoldBrightWhite => Some(seq!['1', ';', '9', '7']),
    }
}

/// Is `out` what is written of `text` in a style?
pub open spec fn shows(style: Style, text: Seq<char>, out: Seq<char>) -> bool {
    match style_codes(style) {
        Some(codes) => is_painted(out, text, codes),
        None => out == text,
    }
}

/// What is written of `text` in a style. Whether colours are on is left open, so the contract
/// admits the plain text for every style; it admits no other style's escape sequences.
pub fn paint(style: Style, text: &str) -> (r: String)
    ensures
        shows(style, text@, r@),
{
    match style {
        Style::Plain => text.to_string(),
        Style::Dimmed => dimmed(text),
        Style::Blue => blue(text),
        Style::BrightBlack => bright_black(text),
        Style::BrightCyan => bright_cyan(text),
        Style::BrightWhite => bright_white(text),
        Style::BrightYellow => bright_yellow(text),
        Style::ItalicBrightBlack => italic_bright_black(text),
        Style::BoldBrightBlue => bold_bright_blue(text),
        Style::BoldBrightCyan => bold_bright_cyan(text),
        Style::BoldBrightGreen => bold_bright_green(text),
        Style::BoldBrightMagenta => bold_bright_magenta(text),
        Style::BoldBrightWhite => bold_bright_white(text),
    }
}

/// A piece of a line.
#[derive(Debug)]
pub struct Span {
    pub style: Style,
    pub text: String,
}

/// A line of the report.
#[derive(Debug)]
pub struct Line {
    pub spans: Vec<Span>,
}

/// The styles and the texts of a line.
pub open spec fn line_view(line: Line) -> Seq<(Style, Seq<char>)> {
    line.spans@.map_values(|span: Span| (span.style, span.text@))
}

/// The lines of a report.
pub open spec fn report_view(lines: Seq<Line>) -> Seq<Seq<(Style, Seq<char>)>> {
    lines.map_values(|line: Line| line_view(line))
}

/// Do the pieces show the spans, one for one?
pub open spec fn pieces_show(
    spans: Seq<(Style, Seq<char>)>,
    pieces: Seq<Seq<char>>,
) -> bool {
    &&& pieces.len() == spans.len()
    &&& forall|i: int|
        0 <= i < spans.len() ==> shows(spans[i].0, spans[i].1, #[trigger] pieces[i])
}

/// Is `out` what is written of a line: one piece for each span, one after the other?
pub open spec fn is_rendered(spans: Seq<(Style, Seq<char>)>, out: Seq<char>) -> bool {
    exists|pieces: Seq<Seq<char>>| #[trigger] pieces_show(spans, pieces) && out == concat(pieces)
}

impl Line {
    /// A line without text.
    pub fn new() -> (r: Self)
        ensures
            line_view(r) == Seq::<(Style, Seq<char>)>::empty(),
    {
        let r = Line { spans: Vec::new() };
        assert(line_view(r) =~= Seq::<(Style, Seq<char>)>::empty());
        r
    }

    /// Appends a piece of text.
    pub fn push(&mut self, style: Style, text: &str)
        ensures
            line_view(*final(self)) == line_view(*old(self)).push((style, text@)),
    {
        self.spans.push(Span { style, text: text.to_string() });
        assert(line_view(*self) =~= line_view(*old(self)).push((style, text@)));
    }

    /// A line of one piece of text.
    pub fn of(style: Style, text: &str) -> (r: Self)
        ensures
            line_view(r) == seq![(style, text@)],
    {
        let mut line = Line::new();
        line.push(style, text);
        assert(line_view(line) =~= seq![(style, text@)]);
        line
    }

    /// What is written of the line.
    pub fn render(&self) -> (r: String)
        ensures
            is_rendered(line_view(*self), r@),
    {
        let mut pieces: Vec<String> = Vec::new();
        let ghost spans = line_view(*self);
        for i in 0..self.spans.len()
            invariant
                spans == line_view(*self),
                pieces@.len() == i,
                forall|k: int|
                    0 <= k < i ==> shows(spans[k].0, spans[k].1, (#[trigger] pieces@[k])@),
        {
            let piece = paint(self.spans[i].style, self.spans[i].text.as_str());
            assert(spans[i as int] == (self.spans@[i as int].style, self.spans@[i as int].text@));
            pieces.push(piece);
        }
        assert(pieces_show(spans, string_views(pieces@)));
        concatenated(&pieces)
    }
}

/// The texts of a line, without colours.
pub open spec fn plain_text(spans: Seq<(Style, Seq<char>)>) -> Seq<char> {
    concat(spans.map_values(|span: (Style, Seq<char>)| span.1))
}

/// A line can always be written as its texts alone, as it is where colours are off; of a line in
/// plain style nothing else can be.
pub proof fn colours_off_leaves_the_text(spans: Seq<(Style, Seq<char>)>)
    ensures
        is_rendered(spans, plain_text(spans)),
        (forall|i: int| 0 <= i < spans.len() ==> (#[trigger] spans[i]).0 == Style::Plain)
            ==> forall|out: Seq<char>| #[trigger]
            is_rendered(spans, out) ==> out == plain_text(spans),
{
    let texts = spans.map_values(|span: (Style, Seq<char>)| span.1);
    assert(pieces_show(spans, texts));
    if forall|i: int| 0 <= i < spans.len() ==> (#[trigger] spans[i]).0 == Style::Plain {
        assert forall|out: Seq<char>| #[trigger] is_rendered(spans, out) implies out == plain_text(
            spans,
        ) by {
            let pieces = choose|pieces: Seq<Seq<char>>| #[trigger]
                pieces_show(spans, pieces) && out == concat(pieces);
            assert forall|i: int| 0 <= i < spans.len() implies #[trigger] pieces[i] == texts[i] by {
                assert(spans[i].0 == Style::Plain);
            }
            assert(pieces =~= texts);
        }
    }
}

/// The attributes of the styles: 2 is dim, 34 blue, 90, 92 to 97 the bright colours, 3 italic and
/// 1 bold.
pub proof fn styles_have_their_attributes()
    ensures
        style_codes(Style::Plain) is None,
        style_codes(Style::Dimmed) == Some(seq!['2']),
        style_codes(Style::Blue) == Some(seq!['3', '4']),
        style_codes(Style::BrightBlack) == Some(seq!['9', '0']),
        style_codes(Style::BrightCyan) == Some(seq!['9', '6']),
        style_codes(Style::BrightWhite) == Some(seq!['9', '7']),
        style_codes(Style::BrightYellow) == Some(seq!['9', '3']),
        style_codes(Style::ItalicBrightBlack) == Some(seq!['3', ';', '9', '0']),
        style_codes(Style::BoldBrightBlue) == Some(seq!['1', ';', '9', '4']),
        style_codes(Style::BoldBrightCyan) == Some(seq!['1', ';', '9', '6']),
        style_codes(Style::BoldBrightGreen) == Some(seq!['1', ';', '9', '2']),
        style_codes(Style::BoldBrightMagenta) == Some(seq!['1', ';', '9', '5']),
        style_codes(Style::BoldBrightWhite) == Some(seq!['1', ';', '9', '7']),
{
}

/// Coloured text stands between the sequence of its attributes and the one that ends them; where the
/// text itself ends all attributes, its own are switched on again behind that.
pub proof fn colours_surround_the_text(text: Seq<char>, codes: Seq<char>, a: Seq<char>, b: Seq<char>)
    ensures
        reset() == seq!['\u{1b}', '[', '0', 'm'],
        !contains_text(text, reset()) ==> colored_text(text, codes) == seq!['\u{1b}', '['] + codes
            + seq!['m'] + text + reset(),
        (forall|x: Seq<char>, y: Seq<char>|
            #[trigger] (x + reset() + y) == a + reset() + b ==> x.len() >= a.len())
            ==> colored_text(a + reset() + b, codes) == seq!['\u{1b}', '['] + codes + seq!['m'] + a
            + reset() + colored_text(b, codes),
{
    let p = reset();
    let on = escape(codes);
    assert(p =~= seq!['\u{1b}', '[', '0', 'm']);
    if !contains_text(text, p) {
        assert forall|x: Seq<char>, y: Seq<char>|
            #[trigger] (x + p + y) == text + p + Seq::<char>::empty() implies x.len()
            >= text.len() by {
            lemma_first_of_itself(text, x, y);
        }
        splitting_at_a_text_cuts_at_the_first(text, p, Seq::empty());
        assert(join(seq![text], p + on) == text);
    }
    if forall|x: Seq<char>, y: Seq<char>|
        #[trigger] (x + p + y) == a + p + b ==> x.len() >= a.len() {
        splitting_at_a_text_cuts_at_the_first(a, p, b);
        let tail = split_text(b, p);
        join_of_two(seq![a], tail, p + on);
        assert(join(seq![a], p + on) == a);
        assert(colored_text(a + p + b, codes) =~= on + a + p + colored_text(b, codes));
    }
}

/// Behind a text without it, the end of all attributes begins no earlier than there.
proof fn lemma_first_of_itself(text: Seq<char>, x: Seq<char>, y: Seq<char>)
    requires
        !contains_text(text, reset()),
        x + reset() + y == text + reset(),
    ensures
        x.len() >= text.len(),
{
    let p = reset();
    let n = x.len() as int;
    let one = x + p + y;
    let two = text + p;
    assert(p =~= seq!['\u{1b}', '[', '0', 'm']);
    assert(one[n] == '\u{1b}' && one[n + 1] == '[' && one[n + 2] == '0' && one[n + 3] == 'm');
    if n < text.len() {
        if n + 4 <= text.len() {
            assert(text.subrange(n, n + 4) =~= p);
            assert(occurs_at(text, p, n));
        } else {
            let k = text.len() - n;
            assert(two[text.len() as int] == '\u{1b}');
            assert(one[n + k] == '\u{1b}');
        }
    }
}

/// What is written of a text in a style is the text itself, or, in every style but the plain one,
/// the text between the sequences of that style.
pub proof fn text_is_shown_in_its_style(style: Style, text: Seq<char>, out: Seq<char>)
    ensures
        shows(style, text, out) <==> out == text || (style_codes(style) matches Some(codes) && out
            == colored_text(text, codes)),
{
}

/// What is written of a line is what is written of its pieces, one after the other: nothing of an
/// empty line, and of a longer one that of all but the last piece, and then that of the last.
pub proof fn pieces_are_written_in_order(
    spans: Seq<(Style, Seq<char>)>,
    style: Style,
    text: Seq<char>,
    out: Seq<char>,
)
    ensures
        is_rendered(Seq::<(Style, Seq<char>)>::empty(), out) <==> out.len() == 0,
        is_rendered(spans.push((style, text)), out) <==> exists|a: Seq<char>, b: Seq<char>|
            #[trigger] is_rendered(spans, a) && #[trigger] shows(style, text, b) && out == a + b,
        plain_text(spans.push((style, text))) == plain_text(spans) + text,
        plain_text(Seq::<(Style, Seq<char>)>::empty()).len() == 0,
{
    let none = Seq::<(Style, Seq<char>)>::empty();
    let nothing = Seq::<Seq<char>>::empty();
    let more = spans.push((style, text));
    assert(pieces_show(none, nothing));
    if is_rendered(none, out) {
        let pieces = choose|pieces: Seq<Seq<char>>| #[trigger]
            pieces_show(none, pieces) && out == concat(pieces);
        assert(pieces =~= nothing);
    }
    if out.len() == 0 {
        assert(out =~= concat(nothing));
    }
    if is_rendered(more, out) {
        let pieces = choose|pieces: Seq<Seq<char>>| #[trigger]
            pieces_show(more, pieces) && out == concat(pieces);
        let front = pieces.drop_last();
        assert forall|i: int| 0 <= i < spans.len() implies shows(
            spans[i].0,
            spans[i].1,
            #[trigger] front[i],
        ) by {
            assert(more[i] == spans[i]);
            assert(shows(more[i].0, more[i].1, pieces[i]));
        }
        assert(pieces_show(spans, front));
        assert(more[spans.len() as int] == (style, text));
        assert(shows(style, text, pieces.last()));
        assert(is_rendered(spans, concat(front)));
        assert(out == concat(front) + pieces.last());
    }
    if exists|a: Seq<char>, b: Seq<char>|
        #[trigger] is_rendered(spans, a) && #[trigger] shows(style, text, b) && out == a + b {
        let (a, b) = choose|a: Seq<char>, b: Seq<char>|
            #[trigger] is_rendered(spans, a) && #[trigger] shows(style, text, b) && out == a + b;
        let front = choose|pieces: Seq<Seq<char>>| #[trigger]
            pieces_show(spans, pieces) && a == concat(pieces);
        let pieces = front.push(b);
        assert forall|i: int| 0 <= i < more.len() implies shows(
            more[i].0,
            more[i].1,
            #[trigger] pieces[i],
        ) by {
            if i < spans.len() {
                assert(shows(spans[i].0, spans[i].1, front[i]));
            }
        }
        assert(pieces_show(more, pieces));
        assert(pieces.drop_last() =~= front);
    }
    let f = |span: (Style, Seq<char>)| span.1;
    assert(more.map_values(f).drop_last() =~= spans.map_values(f));
    assert(none.map_values(f) =~= nothing);
}

/// The pieces of a line and the lines of a report are seen as they are, in order.
pub proof fn lines_are_seen_whole(lines: Seq<Line>, i: int, k: int)
    requires
        0 <= i < lines.len(),
    ensures
        report_view(lines).len() == lines.len(),
        report_view(lines)[i].len() == lines[i].spans@.len(),
        0 <= k < lines[i].spans@.len() ==> report_view(lines)[i][k] == (
            lines[i].spans@[k].style,
            lines[i].spans@[k].text@,
        ),
        line_view(lines[i]) == report_view(lines)[i],
{
}

} // verus!
