//! What is printed for a line that matches.
use crate::pattern;
use crate::pattern::Matcher;
use vstd::prelude::*;
use vstd::slice::*;
use vstd::string::*;
use vstd::utf8::*;

verus! {

/// Splits off the part of a line that is shown, its first `max_columns`
/// characters, and counts the characters that are left out. With `max_columns`
/// 0 the whole line is shown.
///
/// Columns are characters, not terminal cells: wide characters count once.
pub fn split_visible(line: &str, max_columns: usize) -> (r: (&str, usize))
    ensures
        r.0@ == visible_part(line@, max_columns as int),
        r.1 == line@.len() - visible_part(line@, max_columns as int).len(),
        r.0@ == line@.take(r.0@.len() as int),
        r.0@.len() + r.1 == line@.len(),
        max_columns == 0 ==> r.1 == 0,
        max_columns > 0 ==> r.0@.len() <= max_columns,
        max_columns > 0 && r.1 > 0 ==> r.0@.len() == max_columns,
{
    assert(line@.take(line@.len() as int) =~= line@);
    if max_columns == 0 {
        return (line, 0);
    }
    let total = line.unicode_len();
    if total <= max_columns {
        return (line, 0);
    }
    (line.substring_char(0, max_columns), total - max_columns)
}

/// The part of a line that is shown in `max_columns` columns.
pub open spec fn visible_part(line: Seq<char>, max_columns: int) -> Seq<char> {
    if max_columns == 0 || line.len() <= max_columns {
        line
    } else {
        line.take(max_columns)
    }
}

/// The colors in use.
#[derive(Debug, Clone, Copy, PartialEq, Eq, Structural)]
pub enum Hue {
    Magenta,
    Green,
    Red,
}

/// How a piece of text looks.
#[derive(Debug, Clone, Copy)]
pub struct Look {
    pub fg: Option<Hue>,
    pub bold: bool,
}

/// Looks like the text around it.
pub open spec fn plain() -> Look {
    Look { fg: None, bold: false }
}

impl Look {
    /// The terminal codes that switch a look on: bold first, then the color.
    pub open spec fn start_code(self) -> Seq<char> {
        (if self.bold {
            "\u{1b}[1m"@
        } else {
            Seq::empty()
        }) + match self.fg {
            None => Seq::empty(),
            Some(Hue::Magenta) => "\u{1b}[35m"@,
            Some(Hue::Green) => "\u{1b}[32m"@,
            Some(Hue::Red) => "\u{1b}[31m"@,
        }
    }

    /// The terminal code that switches a look off again.
    pub open spec fn reset_code(self) -> Seq<char> {
        if self == plain() {
            Seq::empty()
        } else {
            "\u{1b}[0m"@
        }
    }
}

/// Calls `anstyle::Style::render` for a foreground color and weight: the code
/// for bold, if it is set, and then the code for the color, if there is one.
#[verifier::external_body]
fn render_style(look: Look) -> (code: String)
    ensures
        code@ == look.start_code(),
{
    let fg = match look.fg {
        None => None,
        Some(Hue::Magenta) => Some(anstyle::AnsiColor::Magenta.into()),
        Some(Hue::Green) => Some(anstyle::AnsiColor::Green.into()),
        Some(Hue::Red) => Some(anstyle::AnsiColor::Red.into()),
    };
    let effects = anstyle::Effects::new().set(anstyle::Effects::BOLD, look.bold);
    anstyle::Style::new().fg_color(fg).effects(effects).render().to_string()
}

/// Calls `anstyle::Style::render_reset` for a foreground color and weight: the
/// code that resets them, or nothing where neither is set.
#[verifier::external_body]
fn render_style_reset(look: Look) -> (code: String)
    ensures
        code@ == look.reset_code(),
{
    let fg = match look.fg {
        None => None,
        Some(Hue::Magenta) => Some(anstyle::AnsiColor::Magenta.into()),
        Some(Hue::Green) => Some(anstyle::AnsiColor::Green.into()),
        Some(Hue::Red) => Some(anstyle::AnsiColor::Red.into()),
    };
    let effects = anstyle::Effects::new().set(anstyle::Effects::BOLD, look.bold);
    anstyle::Style::new().fg_color(fg).effects(effects).render_reset().to_string()
}

/// How paths look.
pub open spec fn path_look(color: bool) -> Look {
    if color {
        Look { fg: Some(Hue::Magenta), bold: false }
    } else {
        plain()
    }
}

/// How line numbers look.
pub open spec fn line_look(color: bool) -> Look {
    if color {
        Look { fg: Some(Hue::Green), bold: false }
    } else {
        plain()
    }
}

/// How matches look.
pub open spec fn match_look(color: bool) -> Look {
    if color {
        Look { fg: Some(Hue::Red), bold: true }
    } else {
        plain()
    }
}

/// A piece of output: text, or a terminal code that only changes its look.
pub enum Piece {
    Text(Seq<u8>),
    Code(Seq<u8>),
}

impl Piece {
    pub open spec fn bytes(self) -> Seq<u8> {
        match self {
            Piece::Text(bytes) => bytes,
            Piece::Code(bytes) => bytes,
        }
    }
}

/// The bytes of an output.
pub open spec fn all_bytes(pieces: Seq<Piece>) -> Seq<u8>
    decreases pieces.len(),
{
    if pieces.len() == 0 {
        Seq::empty()
    } else {
        pieces[0].bytes() + all_bytes(pieces.drop_first())
    }
}

/// The decimal digits of a number.
pub open spec fn decimal(n: nat) -> Seq<u8>
    decreases n,
{
    if n < 10 {
        seq![(0x30 + n) as u8]
    } else {
        decimal(n / 10) + seq![(0x30 + n % 10) as u8]
    }
}

/// A text with a look of its own.
pub open spec fn styled(look: Look, text: Seq<u8>) -> Seq<Piece> {
    seq![
        Piece::Code(encode_utf8(look.start_code())),
        Piece::Text(text),
        Piece::Code(encode_utf8(look.reset_code())),
    ]
}

/// The matches as far as they are shown in the first `end` bytes of a line,
/// without the empty ones.
pub open spec fn shown(spans: Seq<(usize, usize)>, end: int) -> Seq<(int, int)>
    decreases spans.len(),
{
    if spans.len() == 0 {
        Seq::empty()
    } else {
        let (start, stop) = (spans[0].0 as int, spans[0].1 as int);
        let rest = shown(spans.drop_first(), end);
        if start < end && start < stop {
            seq![
                (
                    start,
                    if stop < end {
                        stop
                    } else {
                        end
                    },
                ),
            ] + rest
        } else {
            rest
        }
    }
}

/// The bytes of `text` from `from` on, with a look of their own for `marks`.
pub open spec fn marked(text: Seq<u8>, marks: Seq<(int, int)>, from: int, look: Look) -> Seq<Piece>
    decreases marks.len(),
{
    if marks.len() == 0 {
        seq![Piece::Text(text.subrange(from, text.len() as int))]
    } else {
        let (start, stop) = marks[0];
        seq![Piece::Text(text.subrange(from, start))] + styled(look, text.subrange(start, stop))
            + marked(text, marks.drop_first(), stop, look)
    }
}

/// The part of a line that is shown, with the matches in it where there is color.
pub open spec fn body_pieces(color: bool, bytes: Seq<u8>, spans: Seq<(usize, usize)>) -> Seq<
    Piece,
> {
    if color {
        marked(bytes, shown(spans, bytes.len() as int), 0, match_look(color))
    } else {
        seq![Piece::Text(bytes)]
    }
}

/// What a line ends with where `truncated` characters of it are left out.
pub open spec fn truncation_note(truncated: int) -> Seq<u8> {
    if truncated > 0 {
        encode_utf8(" …[+"@) + decimal(truncated as nat) + encode_utf8(" chars]"@)
    } else {
        Seq::empty()
    }
}

/// A match as it is printed: `path:line_number:line`.
pub open spec fn match_pieces(
    color: bool,
    path: Seq<char>,
    line_no: nat,
    text: Seq<char>,
    max_columns: int,
    spans: Seq<(usize, usize)>,
) -> Seq<Piece> {
    let visible = visible_part(text, max_columns);
    let bytes = encode_utf8(visible);
    styled(path_look(color), encode_utf8(path)) + seq![Piece::Text(encode_utf8(":"@))] + styled(
        line_look(color),
        decimal(line_no),
    ) + seq![Piece::Text(encode_utf8(":"@))] + body_pieces(color, bytes, spans) + seq![
        Piece::Text(truncation_note(text.len() - visible.len())),
        Piece::Text(encode_utf8("\n"@)),
    ]
}

pub proof fn lemma_all_bytes_add(a: Seq<Piece>, b: Seq<Piece>)
    ensures
        all_bytes(a + b) == all_bytes(a) + all_bytes(b),
    decreases a.len(),
{
    if a.len() == 0 {
        assert(a + b =~= b);
    } else {
        assert((a + b).drop_first() =~= a.drop_first() + b);
        lemma_all_bytes_add(a.drop_first(), b);
    }
}

pub proof fn lemma_all_bytes_one(p: Piece)
    ensures
        all_bytes(seq![p]) == p.bytes(),
{
    assert(seq![p].drop_first() =~= Seq::<Piece>::empty());
    reveal_with_fuel(all_bytes, 2);
}

proof fn lemma_all_bytes_styled(look: Look, text: Seq<u8>)
    ensures
        all_bytes(styled(look, text)) == encode_utf8(look.start_code()) + text + encode_utf8(
            look.reset_code(),
        ),
{
    let (a, b, c) = (
        Piece::Code(encode_utf8(look.start_code())),
        Piece::Text(text),
        Piece::Code(encode_utf8(look.reset_code())),
    );
    assert(styled(look, text) =~= seq![a] + seq![b] + seq![c]);
    lemma_all_bytes_add(seq![a] + seq![b], seq![c]);
    lemma_all_bytes_add(seq![a], seq![b]);
    lemma_all_bytes_one(a);
    lemma_all_bytes_one(b);
    lemma_all_bytes_one(c);
}

pub proof fn lemma_match_bytes(
    color: bool,
    path: Seq<char>,
    line_no: nat,
    text: Seq<char>,
    max_columns: int,
    spans: Seq<(usize, usize)>,
    body: Seq<Piece>,
)
    requires
        body == body_pieces(color, encode_utf8(visible_part(text, max_columns)), spans),
    ensures
        all_bytes(match_pieces(color, path, line_no, text, max_columns, spans)) == all_bytes(
            styled(path_look(color), encode_utf8(path)),
        ) + encode_utf8(":"@) + all_bytes(styled(line_look(color), decimal(line_no)))
            + encode_utf8(":"@) + all_bytes(body) + truncation_note(
            text.len() - visible_part(text, max_columns).len(),
        ) + encode_utf8("\n"@),
{
    let colon = seq![Piece::Text(encode_utf8(":"@))];
    let head = styled(path_look(color), encode_utf8(path));
    let number = styled(line_look(color), decimal(line_no));
    let note = Piece::Text(truncation_note(text.len() - visible_part(text, max_columns).len()));
    let newline = Piece::Text(encode_utf8("\n"@));
    let upto = head + colon + number + colon + body;
    lemma_all_bytes_add(upto, seq![note, newline]);
    lemma_all_bytes_add(head + colon + number + colon, body);
    lemma_all_bytes_add(head + colon + number, colon);
    lemma_all_bytes_add(head + colon, number);
    lemma_all_bytes_add(head, colon);
    lemma_all_bytes_one(colon[0]);
    lemma_all_bytes_add(seq![note], seq![newline]);
    lemma_all_bytes_one(note);
    lemma_all_bytes_one(newline);
    assert(seq![note, newline] =~= seq![note] + seq![newline]);
    assert(all_bytes(upto) + (note.bytes() + newline.bytes()) =~= all_bytes(upto) + note.bytes()
        + newline.bytes());
}

/// Matches that start past the end are not shown.
proof fn lemma_shown_none(spans: Seq<(usize, usize)>, end: int)
    requires
        forall|i: int| 0 <= i < spans.len() ==> (#[trigger] spans[i]).0 >= end,
    ensures
        shown(spans, end).len() == 0,
    decreases spans.len(),
{
    if spans.len() > 0 {
        let rest = spans.drop_first();
        assert(spans[0].0 >= end);
        assert forall|i: int| 0 <= i < rest.len() implies (#[trigger] rest[i]).0 >= end by {
            assert(rest[i] == spans[i + 1]);
        }
        lemma_shown_none(rest, end);
    }
}

/// Appends some bytes.
fn push_bytes(out: &mut Vec<u8>, bytes: &[u8])
    ensures
        final(out)@ == old(out)@ + bytes@,
{
    out.extend_from_slice(bytes);
    assert(out@ =~= old(out)@ + bytes@);
}

/// Appends the decimal digits of `n`.
fn push_decimal(out: &mut Vec<u8>, n: usize)
    ensures
        final(out)@ == old(out)@ + decimal(n as nat),
    decreases n,
{
    if n >= 10 {
        push_decimal(out, n / 10);
    }
    let ghost before = out@;
    out.push(0x30 + (n % 10) as u8);
    assert(out@ =~= before + seq![(0x30 + n % 10) as u8]);
    assert(out@ =~= old(out)@ + decimal(n as nat));
}

/// Appends a text with a look of its own.
fn push_styled(out: &mut Vec<u8>, look: Look, text: &[u8])
    ensures
        final(out)@ == old(out)@ + all_bytes(styled(look, text@)),
{
    push_bytes(out, render_style(look).as_str().as_bytes());
    push_bytes(out, text);
    push_bytes(out, render_style_reset(look).as_str().as_bytes());
    proof {
        lemma_all_bytes_styled(look, text@);
    }
    assert(out@ =~= old(out)@ + all_bytes(styled(look, text@)));
}

/// Appends `text` with a look of its own for the matches in it. What lies past
/// its end is not shown, and empty matches look like the text around them.
pub fn push_marked(out: &mut Vec<u8>, text: &[u8], spans: &Vec<(usize, usize)>, look: Look)
    requires
        pattern::spans_ordered(spans@),
    ensures
        final(out)@ == old(out)@ + all_bytes(
            marked(text@, shown(spans@, text@.len() as int), 0, look),
        ),
{
    let end = text.len();
    let mut last: usize = 0;
    let mut i: usize = 0;
    let ghost whole = old(out)@ + all_bytes(marked(text@, shown(spans@, end as int), 0, look));
    assert(spans@.skip(0) =~= spans@);
    let mut done = false;
    while !done && i < spans.len()
        invariant
            end == text@.len(),
            last <= end,
            i <= spans@.len(),
            pattern::spans_ordered(spans@),
            forall|j: int| i <= j < spans@.len() ==> (#[trigger] spans@[j]).0 >= last,
            done ==> shown(spans@.skip(i as int), end as int).len() == 0,
            whole == out@ + all_bytes(
                marked(text@, shown(spans@.skip(i as int), end as int), last as int, look),
            ),
        decreases spans@.len() - i, if done { 0int } else { 1int },
    {
        let (start, stop) = spans[i];
        let ghost rest = spans@.skip(i as int);
        let ghost later = spans@.skip(i + 1);
        proof {
            assert(rest.drop_first() =~= later);
            assert(rest[0] == spans@[i as int]);
        }
        if start >= end {
            proof {
                assert forall|j: int| 0 <= j < rest.len() implies (#[trigger] rest[j]).0 >= end by {
                    assert(rest[j] == spans@[i + j]);
                }
                lemma_shown_none(rest, end as int);
            }
            done = true;
        } else if start == stop {
            i += 1;
        } else {
            let hit_end = if stop < end {
                stop
            } else {
                end
            };
            let ghost before = out@;
            let ghost look_text = text@.subrange(start as int, hit_end as int);
            let ghost marks = shown(rest, end as int);
            proof {
                let gap = Piece::Text(text@.subrange(last as int, start as int));
                let after = marked(text@, shown(later, end as int), hit_end as int, look);
                assert(marks.drop_first() =~= shown(later, end as int));
                assert(marks[0] == (start as int, hit_end as int));
                lemma_all_bytes_add(seq![gap] + styled(look, look_text), after);
                lemma_all_bytes_add(seq![gap], styled(look, look_text));
                lemma_all_bytes_one(gap);
            }
            push_bytes(out, slice_subrange(text, last, start));
            push_styled(out, look, slice_subrange(text, start, hit_end));
            last = hit_end;
            i += 1;
            assert(whole =~= out@ + all_bytes(
                marked(text@, shown(later, end as int), last as int, look),
            ));
        }
    }
    proof {
        let tail = Piece::Text(text@.subrange(last as int, end as int));
        if !done {
            assert(spans@.skip(i as int) =~= Seq::<(usize, usize)>::empty());
        }
        lemma_all_bytes_one(tail);
    }
    push_bytes(out, slice_subrange(text, last, end));
    assert(out@ =~= whole);
}

/// Appends the note on characters that are left out, where there are any.
fn push_note(out: &mut Vec<u8>, truncated: usize)
    ensures
        final(out)@ == old(out)@ + truncation_note(truncated as int),
{
    if truncated > 0 {
        push_bytes(out, " …[+".as_bytes());
        push_decimal(out, truncated);
        push_bytes(out, " chars]".as_bytes());
    }
    assert(out@ =~= old(out)@ + truncation_note(truncated as int));
}

/// Prints matches as `path:line_number:line`, with or without color.
pub struct Printer {
    path: Look,
    line: Look,
    matched: Look,
    color: bool,
}

impl Printer {
    /// Whether paths, line numbers and matches are colored.
    pub closed spec fn color(&self) -> bool {
        self.color
    }

    #[verifier::type_invariant]
    spec fn looks(&self) -> bool {
        &&& self.path == path_look(self.color)
        &&& self.line == line_look(self.color)
        &&& self.matched == match_look(self.color)
    }

    pub fn new(color: bool) -> (printer: Printer)
        ensures
            printer.color() == color,
    {
        if color {
            Printer {
                path: Look { fg: Some(Hue::Magenta), bold: false },
                line: Look { fg: Some(Hue::Green), bold: false },
                matched: Look { fg: Some(Hue::Red), bold: true },
                color: true,
            }
        } else {
            let look = Look { fg: None, bold: false };
            Printer { path: look, line: look, matched: look, color: false }
        }
    }

    /// Appends one match to `out`. Of `text` the first `max_columns` characters
    /// are shown, with a look of their own for the matches in them.
    pub fn print_match(
        &self,
        out: &mut Vec<u8>,
        path: &str,
        line_no: usize,
        text: &str,
        max_columns: usize,
        re: &Matcher,
    )
        ensures
            final(out)@ == old(out)@ + all_bytes(
                match_pieces(
                    self.color(),
                    path@,
                    line_no as nat,
                    text@,
                    max_columns as int,
                    re.spans(text@),
                ),
            ),
    {
        if self.color {
            let spans = re.find_all(text);
            self.print_spans(out, path, line_no, text, max_columns, &spans);
        } else {
            let none: Vec<(usize, usize)> = Vec::new();
            self.print_spans(out, path, line_no, text, max_columns, &none);
        }
    }

    /// Appends one match to `out`, where `spans` are the places in `text` that
    /// match.
    #[verifier::spinoff_prover]
    pub fn print_spans(
        &self,
        out: &mut Vec<u8>,
        path: &str,
        line_no: usize,
        text: &str,
        max_columns: usize,
        spans: &Vec<(usize, usize)>,
    )
        requires
            pattern::spans_ordered(spans@),
        ensures
            final(out)@ == old(out)@ + all_bytes(
                match_pieces(
                    self.color(),
                    path@,
                    line_no as nat,
                    text@,
                    max_columns as int,
                    spans@,
                ),
            ),
    {
        let (visible, truncated) = split_visible(text, max_columns);
        self.push_head(out, path, line_no);
        self.push_body(out, visible, spans);
        push_note(out, truncated);
        push_bytes(out, "\n".as_bytes());
        proof {
            lemma_match_bytes(
                self.color,
                path@,
                line_no as nat,
                text@,
                max_columns as int,
                spans@,
                body_pieces(self.color, encode_utf8(visible@), spans@),
            );
        }
        assert(out@ =~= old(out)@ + all_bytes(
            match_pieces(self.color, path@, line_no as nat, text@, max_columns as int, spans@),
        ));
    }

    /// Appends what stands before the line.
    fn push_head(&self, out: &mut Vec<u8>, path: &str, line_no: usize)
        ensures
            final(out)@ == old(out)@ + (all_bytes(
                styled(path_look(self.color), encode_utf8(path@)),
            ) + encode_utf8(":"@) + all_bytes(
                styled(line_look(self.color), decimal(line_no as nat)),
            ) + encode_utf8(":"@)),
    {
        proof {
            use_type_invariant(self);
        }
        let mut digits: Vec<u8> = Vec::new();
        push_decimal(&mut digits, line_no);
        assert(digits@ =~= decimal(line_no as nat));
        push_styled(out, self.path, path.as_bytes());
        push_bytes(out, ":".as_bytes());
        push_styled(out, self.line, digits.as_slice());
        push_bytes(out, ":".as_bytes());
    }

    /// Appends the part of the line that is shown.
    fn push_body(&self, out: &mut Vec<u8>, visible: &str, spans: &Vec<(usize, usize)>)
        requires
            pattern::spans_ordered(spans@),
        ensures
            final(out)@ == old(out)@ + all_bytes(
                body_pieces(self.color, encode_utf8(visible@), spans@),
            ),
    {
        proof {
            use_type_invariant(self);
        }
        if self.color {
            push_marked(out, visible.as_bytes(), spans, self.matched);
        } else {
            push_bytes(out, visible.as_bytes());
            proof {
                lemma_all_bytes_one(Piece::Text(encode_utf8(visible@)));
            }
        }
    }
}

} // verus!
