//! What is drawn: pieces of styled text, lines of them, and areas.

use crate::sorting;
use crate::text;
use vstd::prelude::*;

verus! {

#[derive(Clone, Copy, Debug, PartialEq, Eq, Structural)]
pub enum Color {
    White,
    Gray,
    DarkGray,
    Red,
    Green,
    Yellow,
    Blue,
    Magenta,
    Cyan,
}

/// A colour, or that of the terminal, and whether the text is bold.
#[derive(Clone, Copy, Debug, PartialEq, Eq, Structural)]
pub struct Style {
    pub color: Option<Color>,
    pub bold: bool,
}

pub open spec fn plain() -> Style {
    Style { color: None, bold: false }
}

pub open spec fn colored(color: Color) -> Style {
    Style { color: Some(color), bold: false }
}

pub open spec fn strong() -> Style {
    Style { color: None, bold: true }
}

pub open spec fn bold(color: Color) -> Style {
    Style { color: Some(color), bold: true }
}

impl Style {
    pub fn plain() -> (r: Style)
        ensures
            r == plain(),
    {
        Style { color: None, bold: false }
    }

    pub fn strong() -> (r: Style)
        ensures
            r == strong(),
    {
        Style { color: None, bold: true }
    }

    pub fn colored(color: Color) -> (r: Style)
        ensures
            r == colored(color),
    {
        Style { color: Some(color), bold: false }
    }

    pub fn bold(color: Color) -> (r: Style)
        ensures
            r == bold(color),
    {
        Style { color: Some(color), bold: true }
    }
}

/// A piece of text in one style.
#[derive(Debug)]
pub struct Span {
    pub text: String,
    pub style: Style,
}

#[verifier::ext_equal]
pub struct SpanV {
    pub text: Seq<char>,
    pub style: Style,
}

impl View for Span {
    type V = SpanV;

    open spec fn view(&self) -> SpanV {
        SpanV { text: self.text@, style: self.style }
    }
}

pub open spec fn span(text: Seq<char>, style: Style) -> SpanV {
    SpanV { text, style }
}

/// A line of text.
#[derive(Debug)]
pub struct Line {
    pub spans: Vec<Span>,
}

impl View for Line {
    type V = Seq<SpanV>;

    open spec fn view(&self) -> Seq<SpanV> {
        sorting::views(self.spans@)
    }
}

/// Lines of text.
#[derive(Debug)]
pub struct Lines {
    pub lines: Vec<Line>,
}

impl View for Lines {
    type V = Seq<Seq<SpanV>>;

    open spec fn view(&self) -> Seq<Seq<SpanV>> {
        sorting::views(self.lines@)
    }
}

/// A line with nothing on it.
pub open spec fn blank() -> Seq<SpanV> {
    Seq::empty()
}

/// No line.
pub open spec fn no_lines() -> Seq<Seq<SpanV>> {
    Seq::empty()
}

/// A line in one style.
pub open spec fn one(text: Seq<char>, style: Style) -> Seq<SpanV> {
    blank().push(span(text, style))
}

/// A line of two pieces.
pub open spec fn two(a: Seq<char>, a_style: Style, b: Seq<char>, b_style: Style) -> Seq<SpanV> {
    blank().push(span(a, a_style)).push(span(b, b_style))
}

/// An empty line.
pub open spec fn gap() -> Seq<SpanV> {
    one(Seq::empty(), plain())
}

impl Line {
    pub fn new() -> (r: Line)
        ensures
            r@ == blank(),
    {
        let r = Line { spans: Vec::new() };
        assert(r@ =~= Seq::<SpanV>::empty());
        r
    }

    pub fn add(&mut self, text: &str, style: Style)
        ensures
            final(self)@ == old(self)@.push(span(text@, style)),
    {
        let s = Span { text: text.to_owned(), style };
        proof {
            sorting::views_push(self.spans@, s);
        }
        self.spans.push(s);
    }

    /// A line in one style.
    pub fn of(text: &str, style: Style) -> (r: Line)
        ensures
            r@ == one(text@, style),
    {
        let mut r = Line::new();
        r.add(text, style);
        r
    }
}

impl Lines {
    pub fn new() -> (r: Lines)
        ensures
            r@ == no_lines(),
    {
        let r = Lines { lines: Vec::new() };
        assert(r@ =~= Seq::<Seq<SpanV>>::empty());
        r
    }

    pub fn add(&mut self, line: Line)
        ensures
            final(self)@ == old(self)@.push(line@),
    {
        proof {
            sorting::views_push(self.lines@, line);
        }
        self.lines.push(line);
    }

    /// Adds a line in one style.
    pub fn say(&mut self, text: &str, style: Style)
        ensures
            final(self)@ == old(self)@.push(one(text@, style)),
    {
        self.add(Line::of(text, style));
    }

    /// Adds an empty line.
    pub fn skip(&mut self)
        ensures
            final(self)@ == old(self)@.push(gap()),
    {
        let none = String::new();
        self.add(Line::of(none.as_str(), Style::plain()));
    }

    /// Adds a line of two pieces.
    pub fn pair(&mut self, a: &str, a_style: Style, b: &str, b_style: Style)
        ensures
            final(self)@ == old(self)@.push(two(a@, a_style, b@, b_style)),
    {
        let mut line = Line::new();
        line.add(a, a_style);
        line.add(b, b_style);
        self.add(line);
    }
}

/// A rectangle of the terminal.
#[derive(Clone, Copy, Debug, PartialEq, Eq, Structural)]
pub struct Area {
    pub x: u16,
    pub y: u16,
    pub width: u16,
    pub height: u16,
}

// ---------------------------------------------------------------------------
// Widths
// ---------------------------------------------------------------------------

/// A character takes no column.
pub open spec fn is_invisible(c: char) -> bool {
    ||| c <= '\u{1F}'
    ||| '\u{7F}' <= c <= '\u{9F}'
    ||| '\u{0300}' <= c <= '\u{036F}'
    ||| '\u{200B}' <= c <= '\u{200F}'
    ||| '\u{202A}' <= c <= '\u{202E}'
    ||| '\u{2060}' <= c <= '\u{206F}'
}

/// A character takes two columns.
pub open spec fn is_wide(c: char) -> bool {
    ||| '\u{1100}' <= c <= '\u{115F}'
    ||| '\u{2329}' <= c <= '\u{232A}'
    ||| '\u{2E80}' <= c <= '\u{A4CF}'
    ||| '\u{AC00}' <= c <= '\u{D7A3}'
    ||| '\u{F900}' <= c <= '\u{FAFF}'
    ||| '\u{FE10}' <= c <= '\u{FE19}'
    ||| '\u{FE30}' <= c <= '\u{FE6F}'
    ||| '\u{FF00}' <= c <= '\u{FF60}'
    ||| '\u{FFE0}' <= c <= '\u{FFE6}'
    ||| '\u{1F300}' <= c <= '\u{1FAFF}'
}

/// How many columns a character takes.
pub open spec fn char_width(c: char) -> nat {
    if is_invisible(c) {
        0
    } else if is_wide(c) {
        2
    } else {
        1
    }
}

/// How many columns a text takes.
pub open spec fn width_of(s: Seq<char>) -> nat
    decreases s.len(),
{
    if s.len() == 0 {
        0
    } else {
        width_of(s.drop_last()) + char_width(s.last())
    }
}

pub fn char_display_width(c: char) -> (r: usize)
    ensures
        r == char_width(c),
{
    if c <= '\u{1F}' || ('\u{7F}' <= c && c <= '\u{9F}') || ('\u{0300}' <= c && c <= '\u{036F}')
        || ('\u{200B}' <= c && c <= '\u{200F}') || ('\u{202A}' <= c && c <= '\u{202E}') || (
    '\u{2060}' <= c && c <= '\u{206F}') {
        return 0;
    }
    if ('\u{1100}' <= c && c <= '\u{115F}') || ('\u{2329}' <= c && c <= '\u{232A}') || ('\u{2E80}'
        <= c && c <= '\u{A4CF}') || ('\u{AC00}' <= c && c <= '\u{D7A3}') || ('\u{F900}' <= c && c
        <= '\u{FAFF}') || ('\u{FE10}' <= c && c <= '\u{FE19}') || ('\u{FE30}' <= c && c
        <= '\u{FE6F}') || ('\u{FF00}' <= c && c <= '\u{FF60}') || ('\u{FFE0}' <= c && c
        <= '\u{FFE6}') || ('\u{1F300}' <= c && c <= '\u{1FAFF}') {
        2
    } else {
        1
    }
}

/// A text takes the columns of its parts.
pub proof fn width_of_parts(a: Seq<char>, b: Seq<char>)
    ensures
        width_of(a + b) == width_of(a) + width_of(b),
    decreases b.len(),
{
    if b.len() == 0 {
        assert(a + b =~= a);
    } else {
        assert((a + b).drop_last() =~= a + b.drop_last());
        assert((a + b).last() == b.last());
        width_of_parts(a, b.drop_last());
    }
}

proof fn wider_with_more(s: Seq<char>, k: int)
    requires
        0 <= k <= s.len(),
    ensures
        width_of(s.take(k)) <= width_of(s),
        width_of(s.skip(s.len() - k)) <= width_of(s),
{
    assert(s.take(k) + s.skip(k) =~= s);
    width_of_parts(s.take(k), s.skip(k));
    assert(s.take(s.len() - k) + s.skip(s.len() - k) =~= s);
    width_of_parts(s.take(s.len() - k), s.skip(s.len() - k));
}

/// The most that fits from the start of a text into some columns.
pub open spec fn fitting_start(s: Seq<char>, columns: nat) -> Seq<char>
    decreases s.len(),
{
    if s.len() == 0 || char_width(s[0]) > columns {
        Seq::empty()
    } else {
        seq![s[0]] + fitting_start(s.skip(1), (columns - char_width(s[0])) as nat)
    }
}

/// The most that fits from the end of a text into some columns.
pub open spec fn fitting_end(s: Seq<char>, columns: nat) -> Seq<char>
    decreases s.len(),
{
    if s.len() == 0 || char_width(s.last()) > columns {
        Seq::empty()
    } else {
        fitting_end(s.drop_last(), (columns - char_width(s.last())) as nat).push(s.last())
    }
}

/// A text cut to some columns, with an ellipsis in the end where it is cut.
pub open spec fn truncated(s: Seq<char>, max: nat) -> Seq<char> {
    if max == 0 {
        Seq::empty()
    } else if width_of(s) <= max {
        s
    } else {
        fitting_start(s, (max - 1) as nat).push('…')
    }
}

/// A text cut to some columns, with an ellipsis in front where it is cut.
pub open spec fn start_truncated(s: Seq<char>, max: nat) -> Seq<char> {
    if max == 0 {
        Seq::empty()
    } else if width_of(s) <= max {
        s
    } else {
        seq!['…'] + fitting_end(s, (max - 1) as nat)
    }
}

/// A text cut or padded to some columns.
pub open spec fn fitted(s: Seq<char>, width: nat) -> Seq<char> {
    let cut = truncated(s, width);
    cut + text::repeated(
        ' ',
        if width_of(cut) < width {
            (width - width_of(cut)) as nat
        } else {
            0
        },
    )
}

/// A text with spaces behind it up to a number of characters.
pub open spec fn padded_right(s: Seq<char>, width: nat) -> Seq<char> {
    s + text::repeated(
        ' ',
        if s.len() < width {
            (width - s.len()) as nat
        } else {
            0
        },
    )
}

/// A text with spaces in front up to a number of characters.
pub open spec fn padded_left(s: Seq<char>, width: nat) -> Seq<char> {
    text::repeated(
        ' ',
        if s.len() < width {
            (width - s.len()) as nat
        } else {
            0
        },
    ) + s
}

/// How many columns a text takes, as far as a machine word counts.
pub fn display_width(s: &str) -> (r: usize)
    ensures
        r == if width_of(s@) < usize::MAX {
            width_of(s@) as int
        } else {
            usize::MAX as int
        },
{
    let chars = text::chars_of(s);
    let mut total: usize = 0;
    let mut i: usize = 0;
    assert(s@.take(0) =~= Seq::<char>::empty());
    while i < chars.len()
        invariant
            i <= chars@.len(),
            chars@ == s@,
            total == if width_of(s@.take(i as int)) < usize::MAX {
                width_of(s@.take(i as int)) as int
            } else {
                usize::MAX as int
            },
        decreases chars@.len() - i,
    {
        assert(s@.take(i + 1).drop_last() =~= s@.take(i as int));
        total = total.saturating_add(char_display_width(chars[i]));
        i += 1;
    }
    assert(s@.take(s@.len() as int) =~= s@);
    total
}

fn fits(s: &str, max: usize) -> (r: bool)
    ensures
        r == (width_of(s@) <= max),
{
    let chars = text::chars_of(s);
    let mut left: usize = max;
    let mut i: usize = 0;
    assert(s@.take(0) =~= Seq::<char>::empty());
    while i < chars.len()
        invariant
            i <= chars@.len(),
            chars@ == s@,
            left + width_of(s@.take(i as int)) == max,
        decreases chars@.len() - i,
    {
        assert(s@.take(i + 1).drop_last() =~= s@.take(i as int));
        let w: usize = char_display_width(chars[i]);
        if w > left {
            proof {
                wider_with_more(s@, i + 1);
            }
            return false;
        }
        left = left - w;
        i += 1;
    }
    assert(s@.take(s@.len() as int) =~= s@);
    true
}

/// Cuts a text to some columns, with an ellipsis where something was cut.
pub fn truncate(s: &str, max: usize) -> (r: String)
    ensures
        r@ == truncated(s@, max as nat),
{
    if max == 0 {
        return String::new();
    }
    if fits(s, max) {
        return s.to_owned();
    }
    let chars = text::chars_of(s);
    let mut out = String::new();
    let mut left: usize = max - 1;
    let mut i: usize = 0;
    assert(s@.skip(0) =~= s@);
    assert(out@ + fitting_start(s@, left as nat) =~= fitting_start(s@, left as nat));
    while i < chars.len()
        invariant_except_break
            i <= chars@.len(),
            chars@ == s@,
            out@ + fitting_start(s@.skip(i as int), left as nat) == fitting_start(
                s@,
                (max - 1) as nat,
            ),
        ensures
            out@ == fitting_start(s@, (max - 1) as nat),
        decreases chars@.len() - i,
    {
        let ghost rest = s@.skip(i as int);
        assert(rest[0] == chars@[i as int]);
        let w: usize = char_display_width(chars[i]);
        if w > left {
            assert(fitting_start(rest, left as nat) =~= Seq::<char>::empty());
            assert(out@ + Seq::<char>::empty() =~= out@);
            break ;
        }
        let ghost before = out@;
        out.push(chars[i]);
        assert(rest.skip(1) =~= s@.skip(i + 1));
        assert(before + (seq![rest[0]] + fitting_start(rest.skip(1), (left - w) as nat)) =~= out@
            + fitting_start(s@.skip(i + 1), (left - w) as nat));
        left = left - w;
        i += 1;
        if i == chars.len() {
            assert(out@ + fitting_start(s@.skip(i as int), left as nat) =~= out@);
        }
    }
    out.push('…');
    out
}

/// Cuts a text to some columns from the front.
pub fn truncate_start(s: &str, max: usize) -> (r: String)
    ensures
        r@ == start_truncated(s@, max as nat),
{
    if max == 0 {
        return String::new();
    }
    if fits(s, max) {
        return s.to_owned();
    }
    let chars = text::chars_of(s);
    let mut left: usize = max - 1;
    let mut i: usize = chars.len();
    assert(s@.take(s@.len() as int) =~= s@);
    assert(fitting_end(s@, left as nat) + s@.skip(s@.len() as int) =~= fitting_end(
        s@,
        left as nat,
    ));
    while i > 0
        invariant_except_break
            i <= chars@.len(),
            chars@ == s@,
            fitting_end(s@.take(i as int), left as nat) + s@.skip(i as int) == fitting_end(
                s@,
                (max - 1) as nat,
            ),
        ensures
            i <= chars@.len(),
            chars@ == s@,
            s@.skip(i as int) == fitting_end(s@, (max - 1) as nat),
        decreases i,
    {
        let ghost front = s@.take(i as int);
        assert(front.last() == chars@[i - 1]);
        let w: usize = char_display_width(chars[i - 1]);
        if w > left {
            assert(Seq::<char>::empty() + s@.skip(i as int) =~= s@.skip(i as int));
            break ;
        }
        assert(front.drop_last() =~= s@.take(i - 1));
        assert(fitting_end(front.drop_last(), (left - w) as nat).push(front.last()) + s@.skip(
            i as int,
        ) =~= fitting_end(s@.take(i - 1), (left - w) as nat) + s@.skip(i - 1));
        left = left - w;
        i -= 1;
        if i == 0 {
            assert(fitting_end(s@.take(0), left as nat) =~= Seq::<char>::empty());
            assert(Seq::<char>::empty() + s@.skip(0) =~= s@.skip(0));
        }
    }
    let tail = text::text_of_range(&chars, i, chars.len());
    assert(tail@ =~= s@.skip(i as int));
    let mut r = String::new();
    r.push('…');
    assert(r@ =~= seq!['…']);
    text::join2(r.as_str(), tail.as_str())
}

/// Cuts or pads a text to some columns.
pub fn pad_truncated(s: &str, width: usize) -> (r: String)
    ensures
        r@ == fitted(s@, width as nat),
{
    let cut = truncate(s, width);
    let used: usize = display_width(cut.as_str());
    let padding: usize = width.saturating_sub(used);
    let spaces = text::repeat_char(' ', padding);
    text::join2(cut.as_str(), spaces.as_str())
}

fn length_of(s: &str) -> (r: usize)
    ensures
        r == s@.len(),
{
    text::chars_of(s).len()
}

/// Pads a text with spaces behind it.
pub fn pad_key(s: &str, width: usize) -> (r: String)
    ensures
        r@ == padded_right(s@, width as nat),
{
    let spaces = text::repeat_char(' ', width.saturating_sub(length_of(s)));
    text::join2(s, spaces.as_str())
}

/// Pads a text with spaces in front.
pub fn pad_left(s: &str, width: usize) -> (r: String)
    ensures
        r@ == padded_left(s@, width as nat),
{
    let spaces = text::repeat_char(' ', width.saturating_sub(length_of(s)));
    text::join2(spaces.as_str(), s)
}

// ---------------------------------------------------------------------------
// Laws
// ---------------------------------------------------------------------------

proof fn start_fits(s: Seq<char>, columns: nat)
    ensures
        width_of(fitting_start(s, columns)) <= columns,
    decreases s.len(),
{
    if s.len() > 0 && char_width(s[0]) <= columns {
        let left = (columns - char_width(s[0])) as nat;
        start_fits(s.skip(1), left);
        width_of_parts(seq![s[0]], fitting_start(s.skip(1), left));
        assert(seq![s[0]].drop_last() =~= Seq::<char>::empty());
        assert(width_of(seq![s[0]].drop_last()) == 0);
    }
}

proof fn end_fits(s: Seq<char>, columns: nat)
    ensures
        width_of(fitting_end(s, columns)) <= columns,
    decreases s.len(),
{
    if s.len() > 0 && char_width(s.last()) <= columns {
        let left = (columns - char_width(s.last())) as nat;
        end_fits(s.drop_last(), left);
        let front = fitting_end(s.drop_last(), left);
        assert(front.push(s.last()).drop_last() =~= front);
    }
}

proof fn spaces_take_columns(count: nat)
    ensures
        width_of(text::repeated(' ', count)) == count,
    decreases count,
{
    if count > 0 {
        assert(text::repeated(' ', count).drop_last() =~= text::repeated(
            ' ',
            (count - 1) as nat,
        ));
        spaces_take_columns((count - 1) as nat);
    }
}

/// A cut text fits; a text that fits is not cut; and a fitted text takes just
/// the columns it is to take.
pub proof fn cut_text_fits(s: Seq<char>, max: nat)
    ensures
        width_of(truncated(s, max)) <= max,
        width_of(start_truncated(s, max)) <= max,
        max > 0 && width_of(s) <= max ==> truncated(s, max) == s && start_truncated(s, max) == s,
        width_of(fitted(s, max)) == max,
{
    if max > 0 && width_of(s) > max {
        let left = (max - 1) as nat;
        start_fits(s, left);
        end_fits(s, left);
        let front = fitting_start(s, left);
        assert(front.push('…').drop_last() =~= front);
        width_of_parts(seq!['…'], fitting_end(s, left));
        assert(seq!['…'].drop_last() =~= Seq::<char>::empty());
        assert(width_of(seq!['…'].drop_last()) == 0);
    }
    let cut = truncated(s, max);
    let padding = (max - width_of(cut)) as nat;
    spaces_take_columns(padding);
    width_of_parts(cut, text::repeated(' ', padding));
}

} // verus!
