//! What holds of all printed matches.
use crate::lines;
use crate::output;
use crate::output::{Hue, Look, Piece};
use crate::pattern;
use vstd::prelude::*;
use vstd::string::*;
use vstd::utf8::*;

verus! {

pub const ESCAPE: u8 = 0x1b;

/// Whether a byte does not occur.
pub open spec fn lacks(bytes: Seq<u8>, b: u8) -> bool {
    forall|i: int| 0 <= i < bytes.len() ==> #[trigger] bytes[i] != b
}

/// Whether a character does not occur.
pub open spec fn lacks_char(text: Seq<char>, c: char) -> bool {
    forall|i: int| 0 <= i < text.len() ==> #[trigger] text[i] != c
}

pub open spec fn is_letter(b: u8) -> bool {
    0x41 <= b <= 0x5a || 0x61 <= b <= 0x7a
}

/// What follows the letter that ends a terminal code.
pub open spec fn after_code(bytes: Seq<u8>) -> Seq<u8>
    decreases bytes.len(),
{
    if bytes.len() == 0 {
        bytes
    } else if is_letter(bytes[0]) {
        bytes.drop_first()
    } else {
        after_code(bytes.drop_first())
    }
}

/// An output without its terminal codes, each of which runs from an escape to
/// the next letter.
pub open spec fn without_codes(bytes: Seq<u8>) -> Seq<u8>
    decreases bytes.len(),
{
    if bytes.len() == 0 {
        bytes
    } else if bytes[0] == ESCAPE {
        if after_code(bytes.drop_first()).len() < bytes.len() {
            without_codes(after_code(bytes.drop_first()))
        } else {
            Seq::empty()
        }
    } else {
        seq![bytes[0]] + without_codes(bytes.drop_first())
    }
}

/// The text in an output.
pub open spec fn texts(pieces: Seq<Piece>) -> Seq<u8>
    decreases pieces.len(),
{
    if pieces.len() == 0 {
        Seq::empty()
    } else {
        (match pieces[0] {
            Piece::Text(bytes) => bytes,
            Piece::Code(_) => Seq::empty(),
        }) + texts(pieces.drop_first())
    }
}

/// Whether some bytes are terminal codes and nothing else.
pub open spec fn only_codes(bytes: Seq<u8>) -> bool {
    forall|rest: Seq<u8>| #[trigger] without_codes(bytes + rest) == without_codes(rest)
}

/// Whether the codes of an output are codes and its text holds none.
pub open spec fn told_apart(pieces: Seq<Piece>) -> bool {
    forall|i: int|
        0 <= i < pieces.len() ==> match #[trigger] pieces[i] {
            Piece::Text(bytes) => lacks(bytes, ESCAPE),
            Piece::Code(bytes) => only_codes(bytes),
        }
}

proof fn lemma_after_code(code: Seq<u8>, rest: Seq<u8>)
    requires
        code.len() > 0,
        is_letter(code.last()),
        forall|i: int| 0 <= i < code.len() - 1 ==> !is_letter(#[trigger] code[i]),
    ensures
        after_code(code + rest) == rest,
    decreases code.len(),
{
    let tail = code.drop_first();
    assert((code + rest).drop_first() =~= tail + rest);
    if code.len() == 1 {
        assert(code[0] == code.last());
        assert(tail + rest =~= rest);
    } else {
        assert(!is_letter(code[0]));
        assert forall|i: int| 0 <= i < tail.len() - 1 implies !is_letter(#[trigger] tail[i]) by {
            assert(tail[i] == code[i + 1]);
        }
        lemma_after_code(tail, rest);
    }
}

proof fn lemma_only_codes(code: Seq<u8>)
    requires
        code.len() >= 2,
        code[0] == ESCAPE,
        is_letter(code.last()),
        forall|i: int| 1 <= i < code.len() - 1 ==> !is_letter(#[trigger] code[i]),
    ensures
        only_codes(code),
{
    assert forall|rest: Seq<u8>| #[trigger] without_codes(code + rest) == without_codes(rest) by {
        let tail = code.drop_first();
        assert((code + rest).drop_first() =~= tail + rest);
        assert forall|i: int| 0 <= i < tail.len() - 1 implies !is_letter(#[trigger] tail[i]) by {
            assert(tail[i] == code[i + 1]);
        }
        lemma_after_code(tail, rest);
    }
}

proof fn lemma_only_codes_add(a: Seq<u8>, b: Seq<u8>)
    requires
        only_codes(a),
        only_codes(b),
    ensures
        only_codes(a + b),
{
    assert forall|rest: Seq<u8>| #[trigger] without_codes(a + b + rest) == without_codes(rest) by {
        assert(a + b + rest =~= a + (b + rest));
        assert(without_codes(a + (b + rest)) == without_codes(b + rest));
    }
}

proof fn lemma_only_codes_empty()
    ensures
        only_codes(Seq::empty()),
{
    assert forall|rest: Seq<u8>| #[trigger]
        without_codes(Seq::<u8>::empty() + rest) == without_codes(rest) by {
        assert(Seq::<u8>::empty() + rest =~= rest);
    }
}

proof fn lemma_encode_add(a: Seq<char>, b: Seq<char>)
    ensures
        encode_utf8(a + b) == encode_utf8(a) + encode_utf8(b),
    decreases a.len(),
{
    if a.len() == 0 {
        assert(a + b =~= b);
        assert(encode_utf8(a) =~= Seq::<u8>::empty());
    } else {
        assert((a + b).drop_first() =~= a.drop_first() + b);
        lemma_encode_add(a.drop_first(), b);
    }
}

/// The part of a text that is shown is the beginning of it.
proof fn lemma_visible_prefix(text: Seq<char>, max_columns: int)
    requires
        max_columns >= 0,
    ensures
        encode_utf8(output::visible_part(text, max_columns)).is_prefix_of(encode_utf8(text)),
{
    let visible = output::visible_part(text, max_columns);
    assert(text =~= visible + text.skip(visible.len() as int));
    lemma_encode_add(visible, text.skip(visible.len() as int));
}

proof fn lemma_ascii(s: Seq<char>)
    requires
        is_ascii_chars(s),
    ensures
        encode_utf8(s).len() == s.len(),
        forall|i: int| 0 <= i < s.len() ==> #[trigger] encode_utf8(s)[i] == s[i] as u8,
{
    is_ascii_chars_encode_utf8(s);
}

proof fn lemma_code_bytes(s: Seq<char>)
    requires
        s.len() >= 2,
        is_ascii_chars(s),
        s[0] == '\u{1b}',
        s.last() == 'm',
        forall|i: int| 1 <= i < s.len() - 1 ==> !is_letter(#[trigger] s[i] as u8),
    ensures
        only_codes(encode_utf8(s)),
{
    lemma_ascii(s);
    let code = encode_utf8(s);
    assert(code[0] == s[0] as u8);
    assert(code[s.len() - 1] == s[s.len() - 1] as u8);
    assert forall|i: int| 1 <= i < code.len() - 1 implies !is_letter(#[trigger] code[i]) by {
        assert(code[i] == s[i] as u8);
    }
    lemma_only_codes(code);
}

proof fn lemma_look_codes(look: Look)
    ensures
        only_codes(encode_utf8(look.start_code())),
        only_codes(encode_utf8(look.reset_code())),
{
    reveal_strlit("\u{1b}[1m");
    reveal_strlit("\u{1b}[35m");
    reveal_strlit("\u{1b}[32m");
    reveal_strlit("\u{1b}[31m");
    reveal_strlit("\u{1b}[0m");
    lemma_code_bytes("\u{1b}[1m"@);
    lemma_code_bytes("\u{1b}[35m"@);
    lemma_code_bytes("\u{1b}[32m"@);
    lemma_code_bytes("\u{1b}[31m"@);
    lemma_code_bytes("\u{1b}[0m"@);
    lemma_only_codes_empty();
    assert(encode_utf8(Seq::empty()) =~= Seq::<u8>::empty());
    let bold = if look.bold {
        "\u{1b}[1m"@
    } else {
        Seq::empty()
    };
    let fg = match look.fg {
        None => Seq::empty(),
        Some(Hue::Magenta) => "\u{1b}[35m"@,
        Some(Hue::Green) => "\u{1b}[32m"@,
        Some(Hue::Red) => "\u{1b}[31m"@,
    };
    assert(look.start_code() == bold + fg);
    lemma_encode_add(bold, fg);
    lemma_only_codes_add(encode_utf8(bold), encode_utf8(fg));
}

proof fn lemma_encode_scalar_lacks(c: u32, b: u8)
    requires
        is_scalar(c),
        b < 0x80,
        c != b,
    ensures
        lacks(encode_scalar(c), b),
{
    if has_width_1_encoding(c) {
        assert((c & 0x7F) as u8 != b) by (bit_vector)
            requires
                0 <= c <= 0x7F,
                b < 0x80,
                c != b,
        ;
    } else {
        let a1 = ((c >> 6) & 0x1F) as u8;
        let a2 = ((c >> 12) & 0x0F) as u8;
        let a3 = ((c >> 18) & 0x7) as u8;
        let a4 = (c & 0x3F) as u8;
        let a5 = ((c >> 6) & 0x3F) as u8;
        let a6 = ((c >> 12) & 0x3F) as u8;
        assert(0xC0 | a1 >= 0x80 && 0xE0 | a2 >= 0x80 && 0xF0 | a3 >= 0x80 && 0x80 | a4 >= 0x80
            && 0x80 | a5 >= 0x80 && 0x80 | a6 >= 0x80) by (bit_vector);
    }
}

proof fn lemma_char_value(c: char)
    ensures
        c as u32 as int == c as int,
{
}

/// A character of one byte occurs in an encoded text only where it occurs in the
/// text.
proof fn lemma_encode_lacks(text: Seq<char>, c: char)
    requires
        lacks_char(text, c),
        (c as u32) < 0x80,
    ensures
        lacks(encode_utf8(text), c as u8),
    decreases text.len(),
{
    if text.len() > 0 {
        let rest = text.drop_first();
        assert forall|i: int| 0 <= i < rest.len() implies #[trigger] rest[i] != c by {
            assert(rest[i] == text[i + 1]);
        }
        lemma_encode_lacks(rest, c);
        assert(text[0] != c);
        let first = text[0];
        assert(first as int != c as int);
        lemma_char_value(first);
        assert(c as u8 as int == c as int);
        char_is_scalar(first);
        lemma_encode_scalar_lacks(text[0] as u32, c as u8);
    }
}

proof fn lemma_visible_lacks(text: Seq<char>, max_columns: int, c: char)
    requires
        lacks_char(text, c),
        max_columns >= 0,
    ensures
        lacks_char(output::visible_part(text, max_columns), c),
{
}

proof fn lemma_decimal_lacks(n: nat, b: u8)
    requires
        b < 0x30,
    ensures
        lacks(output::decimal(n), b),
    decreases n,
{
    if n >= 10 {
        lemma_decimal_lacks(n / 10, b);
    }
}

proof fn lemma_note_lacks(truncated: int, b: u8)
    requires
        b == ESCAPE || b == lines::NEWLINE,
    ensures
        lacks(output::truncation_note(truncated), b),
{
    let c = if b == ESCAPE {
        '\u{1b}'
    } else {
        '\n'
    };
    reveal_strlit(" …[+");
    reveal_strlit(" chars]");
    lemma_encode_lacks(" …[+"@, c);
    lemma_encode_lacks(" chars]"@, c);
    if truncated > 0 {
        lemma_decimal_lacks(truncated as nat, b);
    }
}

proof fn lemma_texts_add(a: Seq<Piece>, b: Seq<Piece>)
    ensures
        texts(a + b) == texts(a) + texts(b),
    decreases a.len(),
{
    if a.len() == 0 {
        assert(a + b =~= b);
    } else {
        assert((a + b).drop_first() =~= a.drop_first() + b);
        lemma_texts_add(a.drop_first(), b);
    }
}

proof fn lemma_texts_one(p: Piece)
    ensures
        texts(seq![p]) == match p {
            Piece::Text(bytes) => bytes,
            Piece::Code(_) => Seq::empty(),
        },
{
    assert(seq![p].drop_first() =~= Seq::<Piece>::empty());
    reveal_with_fuel(texts, 2);
}

proof fn lemma_texts_styled(look: Look, text: Seq<u8>)
    ensures
        texts(output::styled(look, text)) == text,
{
    let (a, b, c) = (
        Piece::Code(encode_utf8(look.start_code())),
        Piece::Text(text),
        Piece::Code(encode_utf8(look.reset_code())),
    );
    assert(output::styled(look, text) =~= seq![a] + seq![b] + seq![c]);
    lemma_texts_add(seq![a] + seq![b], seq![c]);
    lemma_texts_add(seq![a], seq![b]);
    lemma_texts_one(a);
    lemma_texts_one(b);
    lemma_texts_one(c);
}

proof fn lemma_without_codes_text(text: Seq<u8>, rest: Seq<u8>)
    requires
        lacks(text, ESCAPE),
    ensures
        without_codes(text + rest) == text + without_codes(rest),
    decreases text.len(),
{
    if text.len() == 0 {
        assert(text + rest =~= rest);
    } else {
        let tail = text.drop_first();
        assert(text[0] != ESCAPE);
        assert((text + rest).drop_first() =~= tail + rest);
        assert forall|i: int| 0 <= i < tail.len() implies #[trigger] tail[i] != ESCAPE by {
            assert(tail[i] == text[i + 1]);
        }
        lemma_without_codes_text(tail, rest);
        assert(seq![text[0]] + (tail + without_codes(rest)) =~= text + without_codes(rest));
    }
}

proof fn lemma_without_codes(pieces: Seq<Piece>)
    requires
        told_apart(pieces),
    ensures
        without_codes(output::all_bytes(pieces)) == texts(pieces),
    decreases pieces.len(),
{
    if pieces.len() > 0 {
        let rest = pieces.drop_first();
        let first = pieces[0];
        assert forall|i: int| 0 <= i < rest.len() implies match #[trigger] rest[i] {
            Piece::Text(bytes) => lacks(bytes, ESCAPE),
            Piece::Code(bytes) => only_codes(bytes),
        } by {
            assert(rest[i] == pieces[i + 1]);
        }
        lemma_without_codes(rest);
        match first {
            Piece::Text(bytes) => {
                lemma_without_codes_text(bytes, output::all_bytes(rest));
            },
            Piece::Code(bytes) => {
                assert(without_codes(bytes + output::all_bytes(rest)) == texts(rest));
                assert(Seq::<u8>::empty() + texts(rest) =~= texts(rest));
            },
        }
    }
}

proof fn lemma_told_apart_styled(look: Look, text: Seq<u8>)
    requires
        lacks(text, ESCAPE),
    ensures
        told_apart(output::styled(look, text)),
{
    lemma_look_codes(look);
}

/// Marking the matches in a text leaves the text as it is.
proof fn lemma_marked(text: Seq<u8>, spans: Seq<(usize, usize)>, from: int, look: Look)
    requires
        0 <= from <= text.len(),
        pattern::spans_ordered(spans),
        forall|i: int| 0 <= i < spans.len() ==> (#[trigger] spans[i]).0 >= from,
    ensures
        ({
            let pieces = output::marked(
                text,
                output::shown(spans, text.len() as int),
                from,
                look,
            );
            &&& texts(pieces) == text.subrange(from, text.len() as int)
            &&& lacks(text, ESCAPE) ==> told_apart(pieces)
        }),
    decreases spans.len(),
{
    let end = text.len() as int;
    let marks = output::shown(spans, end);
    let pieces = output::marked(text, marks, from, look);
    if spans.len() == 0 {
        lemma_texts_one(pieces[0]);
        assert(pieces =~= seq![pieces[0]]);
    } else {
        let rest = spans.drop_first();
        let start = spans[0].0 as int;
        let stop = spans[0].1 as int;
        assert forall|i: int, j: int| 0 <= i < j < rest.len() implies (#[trigger] rest[i]).1 <= (
        #[trigger] rest[j]).0 by {
            assert(rest[i] == spans[i + 1]);
            assert(rest[j] == spans[j + 1]);
        }
        assert forall|i: int| 0 <= i < rest.len() implies (#[trigger] rest[i]).0 <= rest[i].1
            && rest[i].0 >= stop by {
            assert(rest[i] == spans[i + 1]);
            assert(spans[0].1 <= spans[i + 1].0);
        }
        if start < end && start < stop {
            let upto = if stop < end {
                stop
            } else {
                end
            };
            let gap = Piece::Text(text.subrange(from, start));
            let hit = text.subrange(start, upto);
            let after = output::marked(text, output::shown(rest, end), upto, look);
            assert(marks.drop_first() =~= output::shown(rest, end));
            lemma_marked(text, rest, upto, look);
            lemma_texts_add(seq![gap] + output::styled(look, hit), after);
            lemma_texts_add(seq![gap], output::styled(look, hit));
            lemma_texts_one(gap);
            lemma_texts_styled(look, hit);
            assert(text.subrange(from, start) + hit + text.subrange(upto, end) =~= text.subrange(
                from,
                end,
            ));
            if lacks(text, ESCAPE) {
                lemma_told_apart_styled(look, hit);
            }
        } else {
            lemma_marked(text, rest, from, look);
        }
    }
}

/// The text of a printed match, whether there is color or not.
proof fn lemma_match_texts(
    color: bool,
    path: Seq<char>,
    line_no: nat,
    text: Seq<char>,
    max_columns: int,
    spans: Seq<(usize, usize)>,
)
    requires
        pattern::spans_ordered(spans),
    ensures
        texts(output::match_pieces(color, path, line_no, text, max_columns, spans)) == encode_utf8(
            path,
        ) + encode_utf8(":"@) + output::decimal(line_no) + encode_utf8(":"@) + encode_utf8(
            output::visible_part(text, max_columns),
        ) + output::truncation_note(text.len() - output::visible_part(text, max_columns).len())
            + encode_utf8("\n"@),
{
    let visible = output::visible_part(text, max_columns);
    let bytes = encode_utf8(visible);
    let colon = seq![Piece::Text(encode_utf8(":"@))];
    let head = output::styled(output::path_look(color), encode_utf8(path));
    let number = output::styled(output::line_look(color), output::decimal(line_no));
    let body = output::body_pieces(color, bytes, spans);
    let note = Piece::Text(output::truncation_note(text.len() - visible.len()));
    let newline = Piece::Text(encode_utf8("\n"@));
    let upto = head + colon + number + colon + body;
    lemma_texts_add(upto, seq![note, newline]);
    lemma_texts_add(head + colon + number + colon, body);
    lemma_texts_add(head + colon + number, colon);
    lemma_texts_add(head + colon, number);
    lemma_texts_add(head, colon);
    lemma_texts_one(colon[0]);
    lemma_texts_add(seq![note], seq![newline]);
    lemma_texts_one(note);
    lemma_texts_one(newline);
    lemma_texts_styled(output::path_look(color), encode_utf8(path));
    lemma_texts_styled(output::line_look(color), output::decimal(line_no));
    if color {
        lemma_marked(bytes, spans, 0, output::match_look(color));
        assert(bytes.subrange(0, bytes.len() as int) =~= bytes);
    } else {
        lemma_texts_one(body[0]);
        assert(body =~= seq![body[0]]);
    }
    assert(seq![note, newline] =~= seq![note] + seq![newline]);
    assert(texts(upto) + (note.bytes() + newline.bytes()) =~= texts(upto) + note.bytes()
        + newline.bytes());
}

proof fn lemma_told_apart_add(a: Seq<Piece>, b: Seq<Piece>)
    requires
        told_apart(a),
        told_apart(b),
    ensures
        told_apart(a + b),
{
    assert forall|i: int| 0 <= i < (a + b).len() implies match #[trigger] (a + b)[i] {
        Piece::Text(bytes) => lacks(bytes, ESCAPE),
        Piece::Code(bytes) => only_codes(bytes),
    } by {
        if i < a.len() {
            assert((a + b)[i] == a[i]);
        } else {
            assert((a + b)[i] == b[i - a.len()]);
        }
    }
}

proof fn lemma_match_told_apart(
    color: bool,
    path: Seq<char>,
    line_no: nat,
    text: Seq<char>,
    max_columns: int,
    spans: Seq<(usize, usize)>,
)
    requires
        pattern::spans_ordered(spans),
        max_columns >= 0,
        lacks_char(path, '\u{1b}'),
        lacks_char(text, '\u{1b}'),
    ensures
        told_apart(output::match_pieces(color, path, line_no, text, max_columns, spans)),
{
    let visible = output::visible_part(text, max_columns);
    let bytes = encode_utf8(visible);
    let colon = seq![Piece::Text(encode_utf8(":"@))];
    let head = output::styled(output::path_look(color), encode_utf8(path));
    let number = output::styled(output::line_look(color), output::decimal(line_no));
    let body = output::body_pieces(color, bytes, spans);
    let note = Piece::Text(output::truncation_note(text.len() - visible.len()));
    let newline = Piece::Text(encode_utf8("\n"@));
    reveal_strlit(":");
    reveal_strlit("\n");
    lemma_encode_lacks(":"@, '\u{1b}');
    lemma_encode_lacks("\n"@, '\u{1b}');
    lemma_encode_lacks(path, '\u{1b}');
    lemma_visible_lacks(text, max_columns, '\u{1b}');
    lemma_encode_lacks(visible, '\u{1b}');
    lemma_decimal_lacks(line_no, ESCAPE);
    lemma_note_lacks(text.len() - visible.len(), ESCAPE);
    lemma_told_apart_styled(output::path_look(color), encode_utf8(path));
    lemma_told_apart_styled(output::line_look(color), output::decimal(line_no));
    if color {
        lemma_marked(bytes, spans, 0, output::match_look(color));
    }
    lemma_told_apart_add(head, colon);
    lemma_told_apart_add(head + colon, number);
    lemma_told_apart_add(head + colon + number, colon);
    lemma_told_apart_add(head + colon + number + colon, body);
    lemma_told_apart_add(head + colon + number + colon + body, seq![note, newline]);
}

proof fn lemma_plain_bytes(
    path: Seq<char>,
    line_no: nat,
    text: Seq<char>,
    max_columns: int,
    spans: Seq<(usize, usize)>,
)
    requires
        pattern::spans_ordered(spans),
    ensures
        ({
            let pieces = output::match_pieces(false, path, line_no, text, max_columns, spans);
            output::all_bytes(pieces) == texts(pieces)
        }),
{
    let pieces = output::match_pieces(false, path, line_no, text, max_columns, spans);
    assert(encode_utf8(output::plain().start_code()) =~= Seq::<u8>::empty());
    assert(encode_utf8(output::plain().reset_code()) =~= Seq::<u8>::empty());
    assert forall|i: int| 0 <= i < pieces.len() implies (#[trigger] pieces[i] matches Piece::Code(
        code,
    ) ==> code.len() == 0) by {}
    lemma_empty_codes(pieces);
}

proof fn lemma_empty_codes(pieces: Seq<Piece>)
    requires
        forall|i: int|
            0 <= i < pieces.len() ==> (#[trigger] pieces[i] matches Piece::Code(code)
                ==> code.len() == 0),
    ensures
        output::all_bytes(pieces) == texts(pieces),
    decreases pieces.len(),
{
    if pieces.len() > 0 {
        let rest = pieces.drop_first();
        assert forall|i: int| 0 <= i < rest.len() implies (#[trigger] rest[i] matches Piece::Code(
            code,
        ) ==> code.len() == 0) by {
            assert(rest[i] == pieces[i + 1]);
        }
        lemma_empty_codes(rest);
        if let Piece::Code(code) = pieces[0] {
            assert(code =~= Seq::<u8>::empty());
        }
    }
}

/// Color adds terminal codes to a printed match and changes nothing else: the
/// text in it is what is printed without color.
pub proof fn law_color_adds_only_codes(
    path: Seq<char>,
    line_no: nat,
    text: Seq<char>,
    max_columns: int,
    spans: Seq<(usize, usize)>,
)
    requires
        pattern::spans_ordered(spans),
    ensures
        texts(output::match_pieces(true, path, line_no, text, max_columns, spans))
            == output::all_bytes(
            output::match_pieces(false, path, line_no, text, max_columns, spans),
        ),
{
    lemma_match_texts(true, path, line_no, text, max_columns, spans);
    lemma_match_texts(false, path, line_no, text, max_columns, spans);
    lemma_plain_bytes(path, line_no, text, max_columns, spans);
}

/// Taking the terminal codes out of a printed match gives back what is printed
/// without color, for a path and a text that hold no terminal codes themselves.
pub proof fn law_codes_can_be_taken_out(
    color: bool,
    path: Seq<char>,
    line_no: nat,
    text: Seq<char>,
    max_columns: int,
    spans: Seq<(usize, usize)>,
)
    requires
        pattern::spans_ordered(spans),
        max_columns >= 0,
        lacks_char(path, '\u{1b}'),
        lacks_char(text, '\u{1b}'),
    ensures
        without_codes(
            output::all_bytes(
                output::match_pieces(color, path, line_no, text, max_columns, spans),
            ),
        ) == output::all_bytes(
            output::match_pieces(false, path, line_no, text, max_columns, spans),
        ),
{
    lemma_match_told_apart(color, path, line_no, text, max_columns, spans);
    lemma_without_codes(output::match_pieces(color, path, line_no, text, max_columns, spans));
    lemma_match_texts(color, path, line_no, text, max_columns, spans);
    lemma_match_texts(false, path, line_no, text, max_columns, spans);
    lemma_plain_bytes(path, line_no, text, max_columns, spans);
}

/// Whether a byte occurs in no piece.
spec fn pieces_lack(pieces: Seq<Piece>, b: u8) -> bool {
    forall|i: int| 0 <= i < pieces.len() ==> lacks((#[trigger] pieces[i]).bytes(), b)
}

proof fn lemma_pieces_lack(pieces: Seq<Piece>, b: u8)
    requires
        pieces_lack(pieces, b),
    ensures
        lacks(output::all_bytes(pieces), b),
    decreases pieces.len(),
{
    if pieces.len() > 0 {
        let rest = pieces.drop_first();
        assert forall|i: int| 0 <= i < rest.len() implies lacks(
            (#[trigger] rest[i]).bytes(),
            b,
        ) by {
            assert(rest[i] == pieces[i + 1]);
        }
        lemma_pieces_lack(rest, b);
        assert(lacks(pieces[0].bytes(), b));
    }
}

proof fn lemma_codes_lack_newline(look: Look)
    ensures
        lacks(encode_utf8(look.start_code()), lines::NEWLINE),
        lacks(encode_utf8(look.reset_code()), lines::NEWLINE),
{
    reveal_strlit("\u{1b}[1m");
    reveal_strlit("\u{1b}[35m");
    reveal_strlit("\u{1b}[32m");
    reveal_strlit("\u{1b}[31m");
    reveal_strlit("\u{1b}[0m");
    lemma_encode_lacks(look.start_code(), '\n');
    lemma_encode_lacks(look.reset_code(), '\n');
}

proof fn lemma_marked_lacks_newline(
    text: Seq<u8>,
    marks: Seq<(int, int)>,
    from: int,
    look: Look,
)
    requires
        lacks(text, lines::NEWLINE),
        0 <= from <= text.len(),
        forall|i: int|
            0 <= i < marks.len() ==> from <= (#[trigger] marks[i]).0 <= marks[i].1 <= text.len(),
        forall|i: int, j: int|
            0 <= i < j < marks.len() ==> (#[trigger] marks[i]).1 <= (#[trigger] marks[j]).0,
    ensures
        pieces_lack(output::marked(text, marks, from, look), lines::NEWLINE),
    decreases marks.len(),
{
    if marks.len() > 0 {
        let rest = marks.drop_first();
        let (start, stop) = marks[0];
        assert forall|i: int| 0 <= i < rest.len() implies stop <= (#[trigger] rest[i]).0
            <= rest[i].1 <= text.len() by {
            assert(rest[i] == marks[i + 1]);
            assert(marks[0].1 <= marks[i + 1].0);
        }
        assert forall|i: int, j: int| 0 <= i < j < rest.len() implies (#[trigger] rest[i]).1 <= (
        #[trigger] rest[j]).0 by {
            assert(rest[i] == marks[i + 1]);
            assert(rest[j] == marks[j + 1]);
        }
        lemma_marked_lacks_newline(text, rest, stop, look);
        lemma_codes_lack_newline(look);
        let after = output::marked(text, rest, stop, look);
        let before = seq![Piece::Text(text.subrange(from, start))] + output::styled(
            look,
            text.subrange(start, stop),
        );
        assert(output::marked(text, marks, from, look) =~= before + after);
        assert forall|i: int| 0 <= i < (before + after).len() implies lacks(
            (#[trigger] (before + after)[i]).bytes(),
            lines::NEWLINE,
        ) by {
            if i >= before.len() {
                assert((before + after)[i] == after[i - before.len()]);
            }
        }
    }
}

/// The matches that are shown lie within what is shown, in order.
proof fn lemma_shown(spans: Seq<(usize, usize)>, from: int, end: int)
    requires
        pattern::spans_ordered(spans),
        forall|i: int| 0 <= i < spans.len() ==> (#[trigger] spans[i]).0 >= from,
    ensures
        ({
            let marks = output::shown(spans, end);
            &&& forall|i: int|
                0 <= i < marks.len() ==> from <= (#[trigger] marks[i]).0 < marks[i].1 <= end
            &&& forall|i: int, j: int|
                0 <= i < j < marks.len() ==> (#[trigger] marks[i]).1 <= (#[trigger] marks[j]).0
            &&& forall|i: int|
                0 <= i < marks.len() ==> exists|j: int|
                    0 <= j < spans.len() && (#[trigger] marks[i]).0 == (#[trigger] spans[j]).0
                        && (marks[i].1 == spans[j].1 || marks[i].1 == end)
        }),
    decreases spans.len(),
{
    if spans.len() > 0 {
        let rest = spans.drop_first();
        let start = spans[0].0 as int;
        let stop = spans[0].1 as int;
        let marks = output::shown(spans, end);
        let later = output::shown(rest, end);
        assert forall|i: int, j: int| 0 <= i < j < rest.len() implies (#[trigger] rest[i]).1 <= (
        #[trigger] rest[j]).0 by {
            assert(rest[i] == spans[i + 1]);
            assert(rest[j] == spans[j + 1]);
        }
        assert forall|i: int| 0 <= i < rest.len() implies (#[trigger] rest[i]).0 <= rest[i].1
            && rest[i].0 >= stop by {
            assert(rest[i] == spans[i + 1]);
            assert(spans[0].1 <= spans[i + 1].0);
        }
        assert(start >= from);
        lemma_shown(rest, stop, end);
        let shift: int = if start < end && start < stop {
            1
        } else {
            0
        };
        assert forall|i: int| 0 <= i < marks.len() implies exists|j: int|
            0 <= j < spans.len() && (#[trigger] marks[i]).0 == (#[trigger] spans[j]).0 && (
            marks[i].1 == spans[j].1 || marks[i].1 == end) by {
            if i >= shift {
                assert(marks[i] == later[i - shift]);
                let j = choose|j: int|
                    0 <= j < rest.len() && later[i - shift].0 == (#[trigger] rest[j]).0 && (
                    later[i - shift].1 == rest[j].1 || later[i - shift].1 == end);
                assert(rest[j] == spans[j + 1]);
            } else {
                assert(marks[0].0 == spans[0].0);
            }
        }
        assert forall|i: int, j: int| 0 <= i < j < marks.len() implies (#[trigger] marks[i]).1 <= (
        #[trigger] marks[j]).0 by {
            assert(marks[j] == later[j - shift]);
            if i >= shift {
                assert(marks[i] == later[i - shift]);
            }
        }
        assert forall|i: int| 0 <= i < marks.len() implies from <= (#[trigger] marks[i]).0
            < marks[i].1 <= end by {
            if i >= shift {
                assert(marks[i] == later[i - shift]);
            }
        }
    }
}

/// A match is printed with a newline at its end.
pub proof fn law_match_ends_its_line(
    color: bool,
    path: Seq<char>,
    line_no: nat,
    text: Seq<char>,
    max_columns: int,
    spans: Seq<(usize, usize)>,
)
    ensures
        ({
            let pieces = output::match_pieces(color, path, line_no, text, max_columns, spans);
            let bytes = output::all_bytes(pieces);
            &&& bytes.len() > 0
            &&& bytes.last() == lines::NEWLINE
            &&& bytes.drop_last() == output::all_bytes(pieces.drop_last())
        }),
{
    let pieces = output::match_pieces(color, path, line_no, text, max_columns, spans);
    let upto = pieces.drop_last();
    let last = Piece::Text(encode_utf8("\n"@));
    reveal_strlit("\n");
    assert(pieces =~= upto + seq![last]);
    output::lemma_all_bytes_add(upto, seq![last]);
    output::lemma_all_bytes_one(last);
    lemma_ascii("\n"@);
    assert(encode_utf8("\n"@)[0] == "\n"@[0] as u8);
    assert(last.bytes() =~= seq![lines::NEWLINE]);
    assert((output::all_bytes(upto) + seq![lines::NEWLINE]).drop_last() =~= output::all_bytes(
        upto,
    ));
}

/// A match is printed as one line: with a newline at its end and, for a path and
/// a text without newlines, none before.
pub proof fn law_match_is_one_line(
    color: bool,
    path: Seq<char>,
    line_no: nat,
    text: Seq<char>,
    max_columns: int,
    spans: Seq<(usize, usize)>,
)
    requires
        pattern::spans_ordered(spans),
        max_columns >= 0,
        lacks_char(path, '\n'),
        lacks_char(text, '\n'),
    ensures
        ({
            let bytes = output::all_bytes(
                output::match_pieces(color, path, line_no, text, max_columns, spans),
            );
            &&& bytes.len() > 0
            &&& bytes.last() == lines::NEWLINE
            &&& lines::one_line(bytes.drop_last())
        }),
{
    let visible = output::visible_part(text, max_columns);
    let shown_bytes = encode_utf8(visible);
    let pieces = output::match_pieces(color, path, line_no, text, max_columns, spans);
    let upto = pieces.drop_last();
    reveal_strlit(":");
    reveal_strlit("\n");
    lemma_encode_lacks(":"@, '\n');
    lemma_encode_lacks(path, '\n');
    lemma_visible_lacks(text, max_columns, '\n');
    lemma_encode_lacks(visible, '\n');
    lemma_decimal_lacks(line_no, lines::NEWLINE);
    lemma_note_lacks(text.len() - visible.len(), lines::NEWLINE);
    lemma_codes_lack_newline(output::path_look(color));
    lemma_codes_lack_newline(output::line_look(color));
    let body = output::body_pieces(color, shown_bytes, spans);
    if color {
        let marks = output::shown(spans, shown_bytes.len() as int);
        lemma_shown(spans, 0, shown_bytes.len() as int);
        lemma_marked_lacks_newline(shown_bytes, marks, 0, output::match_look(color));
    }
    assert(pieces_lack(body, lines::NEWLINE));
    let head = output::styled(output::path_look(color), encode_utf8(path)) + seq![
        Piece::Text(encode_utf8(":"@)),
    ] + output::styled(output::line_look(color), output::decimal(line_no)) + seq![
        Piece::Text(encode_utf8(":"@)),
    ];
    let note = seq![Piece::Text(output::truncation_note(text.len() - visible.len()))];
    assert(upto =~= head + body + note);
    assert forall|i: int| 0 <= i < upto.len() implies lacks(
        (#[trigger] upto[i]).bytes(),
        lines::NEWLINE,
    ) by {
        if head.len() <= i < head.len() + body.len() {
            assert(upto[i] == body[i - head.len()]);
        }
    }
    lemma_pieces_lack(upto, lines::NEWLINE);
    law_match_ends_its_line(color, path, line_no, text, max_columns, spans);
}

/// Without color no terminal code is printed that is not in the path or the text
/// already.
pub proof fn law_no_codes_without_color(
    path: Seq<char>,
    line_no: nat,
    text: Seq<char>,
    max_columns: int,
    spans: Seq<(usize, usize)>,
)
    requires
        pattern::spans_ordered(spans),
        max_columns >= 0,
        lacks_char(path, '\u{1b}'),
        lacks_char(text, '\u{1b}'),
    ensures
        lacks(
            output::all_bytes(
                output::match_pieces(false, path, line_no, text, max_columns, spans),
            ),
            ESCAPE,
        ),
{
    let visible = output::visible_part(text, max_columns);
    reveal_strlit(":");
    reveal_strlit("\n");
    lemma_encode_lacks(":"@, '\u{1b}');
    lemma_encode_lacks("\n"@, '\u{1b}');
    lemma_encode_lacks(path, '\u{1b}');
    lemma_visible_lacks(text, max_columns, '\u{1b}');
    lemma_encode_lacks(visible, '\u{1b}');
    lemma_decimal_lacks(line_no, ESCAPE);
    lemma_note_lacks(text.len() - visible.len(), ESCAPE);
    lemma_match_texts(false, path, line_no, text, max_columns, spans);
    lemma_plain_bytes(path, line_no, text, max_columns, spans);
}

proof fn lemma_boundary_in_prefix(part: Seq<u8>, whole: Seq<u8>, at: int)
    requires
        valid_utf8(part),
        valid_utf8(whole),
        part.is_prefix_of(whole),
        0 <= at <= part.len(),
        at < part.len() ==> is_char_boundary(whole, at),
    ensures
        is_char_boundary(part, at),
{
    if at < part.len() {
        assert(part[at] == whole[at]);
        is_char_boundary_iff_not_is_continuation_byte(part, at);
        is_char_boundary_iff_not_is_continuation_byte(whole, at);
    } else {
        is_char_boundary_start_end_of_seq(part);
    }
}

proof fn lemma_valid_between(bytes: Seq<u8>, start: int, stop: int)
    requires
        valid_utf8(bytes),
        0 <= start <= stop <= bytes.len(),
        is_char_boundary(bytes, start),
        is_char_boundary(bytes, stop),
    ensures
        valid_utf8(bytes.subrange(start, stop)),
{
    let head = bytes.subrange(0, stop);
    valid_utf8_split(bytes, stop);
    lemma_boundary_in_prefix(head, bytes, start);
    valid_utf8_split(head, start);
    assert(head.subrange(start, head.len() as int) =~= bytes.subrange(start, stop));
}

spec fn all_ascii(bytes: Seq<u8>) -> bool {
    forall|i: int| 0 <= i < bytes.len() ==> #[trigger] bytes[i] < 0x80
}

proof fn lemma_valid_ascii(bytes: Seq<u8>)
    requires
        all_ascii(bytes),
    ensures
        valid_utf8(bytes),
{
    assert(bytes.subrange(0, 0) =~= Seq::<u8>::empty());
    assert(partial_valid_utf8(bytes, 0));
    partial_valid_utf8_extend_ascii_block(bytes, 0, bytes.len() as int);
    assert(bytes.subrange(0, bytes.len() as int) =~= bytes);
}

proof fn lemma_decimal_ascii(n: nat)
    ensures
        all_ascii(output::decimal(n)),
    decreases n,
{
    if n >= 10 {
        lemma_decimal_ascii(n / 10);
    }
}

/// Whether every piece is valid UTF-8 by itself.
spec fn pieces_valid(pieces: Seq<Piece>) -> bool {
    forall|i: int| 0 <= i < pieces.len() ==> valid_utf8((#[trigger] pieces[i]).bytes())
}

proof fn lemma_pieces_valid(pieces: Seq<Piece>)
    requires
        pieces_valid(pieces),
    ensures
        valid_utf8(output::all_bytes(pieces)),
    decreases pieces.len(),
{
    if pieces.len() > 0 {
        let rest = pieces.drop_first();
        assert forall|i: int| 0 <= i < rest.len() implies valid_utf8(
            (#[trigger] rest[i]).bytes(),
        ) by {
            assert(rest[i] == pieces[i + 1]);
        }
        lemma_pieces_valid(rest);
        assert(valid_utf8(pieces[0].bytes()));
        valid_utf8_concat(pieces[0].bytes(), output::all_bytes(rest));
    }
}

proof fn lemma_marked_valid(text: Seq<u8>, marks: Seq<(int, int)>, from: int, look: Look)
    requires
        valid_utf8(text),
        0 <= from <= text.len(),
        is_char_boundary(text, from),
        forall|i: int|
            0 <= i < marks.len() ==> from <= (#[trigger] marks[i]).0 <= marks[i].1 <= text.len()
                && is_char_boundary(text, marks[i].0) && is_char_boundary(text, marks[i].1),
        forall|i: int, j: int|
            0 <= i < j < marks.len() ==> (#[trigger] marks[i]).1 <= (#[trigger] marks[j]).0,
    ensures
        pieces_valid(output::marked(text, marks, from, look)),
    decreases marks.len(),
{
    if marks.len() == 0 {
        is_char_boundary_start_end_of_seq(text);
        lemma_valid_between(text, from, text.len() as int);
    } else {
        let rest = marks.drop_first();
        let (start, stop) = marks[0];
        assert forall|i: int| 0 <= i < rest.len() implies stop <= (#[trigger] rest[i]).0
            <= rest[i].1 <= text.len() && is_char_boundary(text, rest[i].0) && is_char_boundary(
            text,
            rest[i].1,
        ) by {
            assert(rest[i] == marks[i + 1]);
            assert(marks[0].1 <= marks[i + 1].0);
        }
        assert forall|i: int, j: int| 0 <= i < j < rest.len() implies (#[trigger] rest[i]).1 <= (
        #[trigger] rest[j]).0 by {
            assert(rest[i] == marks[i + 1]);
            assert(rest[j] == marks[j + 1]);
        }
        lemma_marked_valid(text, rest, stop, look);
        lemma_valid_between(text, from, start);
        lemma_valid_between(text, start, stop);
        encode_utf8_valid_utf8(look.start_code());
        encode_utf8_valid_utf8(look.reset_code());
        let after = output::marked(text, rest, stop, look);
        let before = seq![Piece::Text(text.subrange(from, start))] + output::styled(
            look,
            text.subrange(start, stop),
        );
        assert(output::marked(text, marks, from, look) =~= before + after);
        assert forall|i: int| 0 <= i < (before + after).len() implies valid_utf8(
            (#[trigger] (before + after)[i]).bytes(),
        ) by {
            if i >= before.len() {
                assert((before + after)[i] == after[i - before.len()]);
            }
        }
    }
}

/// A printed match is valid UTF-8: neither the limit on the columns nor the
/// marking of matches cuts a character apart.
pub proof fn law_match_is_utf8(
    color: bool,
    path: Seq<char>,
    line_no: nat,
    text: Seq<char>,
    max_columns: int,
    spans: Seq<(usize, usize)>,
)
    requires
        pattern::spans_ordered(spans),
        pattern::spans_on_chars(spans, encode_utf8(text)),
        max_columns >= 0,
    ensures
        valid_utf8(
            output::all_bytes(
                output::match_pieces(color, path, line_no, text, max_columns, spans),
            ),
        ),
{
    let visible = output::visible_part(text, max_columns);
    let bytes = encode_utf8(visible);
    let whole = encode_utf8(text);
    let end = bytes.len() as int;
    let truncated = text.len() - visible.len();
    broadcast use encode_utf8_valid_utf8;

    lemma_visible_prefix(text, max_columns);
    lemma_decimal_ascii(line_no);
    lemma_valid_ascii(output::decimal(line_no));
    assert(valid_utf8(output::truncation_note(truncated))) by {
        if truncated > 0 {
            lemma_decimal_ascii(truncated as nat);
            lemma_valid_ascii(output::decimal(truncated as nat));
            valid_utf8_concat(encode_utf8(" …[+"@), output::decimal(truncated as nat));
            valid_utf8_concat(
                encode_utf8(" …[+"@) + output::decimal(truncated as nat),
                encode_utf8(" chars]"@),
            );
        }
    }
    let body = output::body_pieces(color, bytes, spans);
    if color {
        let marks = output::shown(spans, end);
        lemma_shown(spans, 0, end);
        is_char_boundary_start_end_of_seq(bytes);
        assert forall|i: int| 0 <= i < marks.len() implies is_char_boundary(
            bytes,
            (#[trigger] marks[i]).0,
        ) && is_char_boundary(bytes, marks[i].1) by {
            let j = choose|j: int|
                0 <= j < spans.len() && marks[i].0 == (#[trigger] spans[j]).0 && (marks[i].1
                    == spans[j].1 || marks[i].1 == end);
            lemma_boundary_in_prefix(bytes, whole, marks[i].0);
            if marks[i].1 < end {
                lemma_boundary_in_prefix(bytes, whole, marks[i].1);
            }
        }
        lemma_marked_valid(bytes, marks, 0, output::match_look(color));
    }
    assert(pieces_valid(body));
    let pieces = output::match_pieces(color, path, line_no, text, max_columns, spans);
    let head = output::styled(output::path_look(color), encode_utf8(path)) + seq![
        Piece::Text(encode_utf8(":"@)),
    ] + output::styled(output::line_look(color), output::decimal(line_no)) + seq![
        Piece::Text(encode_utf8(":"@)),
    ];
    assert forall|i: int| 0 <= i < pieces.len() implies valid_utf8(
        (#[trigger] pieces[i]).bytes(),
    ) by {
        if head.len() <= i < head.len() + body.len() {
            assert(pieces[i] == body[i - head.len()]);
        }
    }
    lemma_pieces_valid(pieces);
}

} // verus!
