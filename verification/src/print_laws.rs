//! What a printed match looks like, byte for byte.
use crate::output;
use crate::output::{Hue, Look, Piece};
use crate::pattern;
use crate::size;
use vstd::prelude::*;
use vstd::string::*;
use vstd::utf8::*;

verus! {

/// What is shown of a line is its beginning: the whole line without a limit, and
/// otherwise as many characters as the limit allows. A wider limit never shows
/// less.
pub proof fn law_shown_part_of_a_line(line: Seq<char>, max_columns: int, wider: int)
    requires
        0 <= max_columns <= wider,
    ensures
        ({
            let n = output::visible_part(line, max_columns).len() as int;
            &&& n <= line.len()
            &&& output::visible_part(line, max_columns) == line.take(n)
            &&& max_columns == 0 ==> n == line.len()
            &&& max_columns > 0 && line.len() <= max_columns ==> n == line.len()
            &&& max_columns > 0 && line.len() > max_columns ==> n == max_columns
            &&& max_columns > 0 ==> n <= output::visible_part(line, wider).len()
        }),
{
    assert(line.take(line.len() as int) =~= line);
}

/// The characters of some ASCII bytes.
pub open spec fn ascii_chars(bytes: Seq<u8>) -> Seq<char> {
    bytes.map_values(|b: u8| b as char)
}

/// The digits that are printed for a number read back as that number, and the
/// first of them is 0 only for the number 0.
pub proof fn law_printed_number_reads_back(n: nat)
    ensures
        ({
            let digits = output::decimal(n);
            &&& digits.len() > 0
            &&& forall|i: int| 0 <= i < digits.len() ==> 0x30 <= #[trigger] digits[i] <= 0x39
            &&& digits[0] == 0x30 ==> n == 0 && digits.len() == 1
            &&& size::decimal_value(digits.map_values(|b: u8| b as char)) == n
        }),
    decreases n,
{
    let digits = output::decimal(n);
    let chars = digits.map_values(|b: u8| b as char);
    assert(chars =~= ascii_chars(digits));
    lemma_digits_value(n);
    if n >= 10 {
        law_printed_number_reads_back(n / 10);
        let front = output::decimal(n / 10);
        assert(digits[0] == front[0]);
        assert forall|i: int| 0 <= i < digits.len() implies 0x30 <= #[trigger] digits[i]
            <= 0x39 by {
            if i < front.len() {
                assert(digits[i] == front[i]);
            }
        }
    }
}

proof fn lemma_digits_value(n: nat)
    ensures
        size::decimal_value(ascii_chars(output::decimal(n))) == n,
    decreases n,
{
    let digits = output::decimal(n);
    let chars = ascii_chars(digits);
    let last: nat = n % 10;
    let b: u8 = (0x30 + last) as u8;
    assert(digits.last() == b);
    assert(chars.last() == b as char);
    assert('0' as nat == 0x30);
    assert(b as char as nat == 0x30 + last);
    if n >= 10 {
        lemma_digits_value(n / 10);
        assert(chars.drop_last() =~= ascii_chars(output::decimal(n / 10)));
    } else {
        assert(chars.drop_last() =~= Seq::empty());
        assert(size::decimal_value(Seq::empty()) == 0);
    }
}

/// Characters that are left out are counted behind the line, and only where there
/// are any.
pub proof fn law_note_counts_what_is_left_out(truncated: int)
    ensures
        truncated <= 0 ==> output::truncation_note(truncated) == Seq::<u8>::empty(),
        truncated > 0 ==> output::truncation_note(truncated) == encode_utf8(" …[+"@)
            + output::decimal(truncated as nat) + encode_utf8(" chars]"@),
{
}

/// The terminal codes of a look: bold comes before the color, and whatever was
/// switched on is reset.
pub proof fn law_codes_of_a_look(look: Look)
    ensures
        ({
            let bold = if look.bold {
                "\u{1b}[1m"@
            } else {
                Seq::empty()
            };
            match look.fg {
                None => look.start_code() == bold,
                Some(Hue::Magenta) => look.start_code() == bold + "\u{1b}[35m"@,
                Some(Hue::Green) => look.start_code() == bold + "\u{1b}[32m"@,
                Some(Hue::Red) => look.start_code() == bold + "\u{1b}[31m"@,
            }
        }),
        look.fg is None && !look.bold ==> look.reset_code() == Seq::<char>::empty(),
        look.fg is Some || look.bold ==> look.reset_code() == "\u{1b}[0m"@,
{
    if look.fg is None {
        assert(look.start_code() =~= if look.bold {
            "\u{1b}[1m"@
        } else {
            Seq::empty()
        });
    }
}

proof fn lemma_text_piece(bytes: Seq<u8>)
    ensures
        output::all_bytes(seq![Piece::Text(bytes)]) == bytes,
{
    output::lemma_all_bytes_one(Piece::Text(bytes));
}

/// A text with a look of its own stands between the codes that switch the look on
/// and off.
pub proof fn law_look_is_switched_on_and_off(look: Look, text: Seq<u8>)
    ensures
        output::all_bytes(output::styled(look, text)) == encode_utf8(look.start_code()) + text
            + encode_utf8(look.reset_code()),
{
    let (a, b, c) = (
        Piece::Code(encode_utf8(look.start_code())),
        Piece::Text(text),
        Piece::Code(encode_utf8(look.reset_code())),
    );
    assert(output::styled(look, text) =~= seq![a] + seq![b] + seq![c]);
    output::lemma_all_bytes_add(seq![a] + seq![b], seq![c]);
    output::lemma_all_bytes_add(seq![a], seq![b]);
    output::lemma_all_bytes_one(a);
    output::lemma_all_bytes_one(b);
    output::lemma_all_bytes_one(c);
}

/// Without color a match is printed as the path, the number and what is shown of
/// the line, with a colon after the first two, the note on what is left out, and
/// a newline at the end.
pub proof fn law_plain_match(
    path: Seq<char>,
    line_no: nat,
    text: Seq<char>,
    max_columns: int,
    spans: Seq<(usize, usize)>,
)
    requires
        max_columns >= 0,
    ensures
        ({
            let n = if max_columns == 0 || text.len() <= max_columns {
                text.len() as int
            } else {
                max_columns
            };
            output::all_bytes(
                output::match_pieces(false, path, line_no, text, max_columns, spans),
            ) == encode_utf8(path) + encode_utf8(":"@) + output::decimal(line_no) + encode_utf8(
                ":"@,
            ) + encode_utf8(text.take(n)) + (if n < text.len() {
                encode_utf8(" …[+"@) + output::decimal((text.len() - n) as nat) + encode_utf8(
                    " chars]"@,
                )
            } else {
                Seq::empty()
            }) + encode_utf8("\n"@)
        }),
{
    let visible = output::visible_part(text, max_columns);
    let body = output::body_pieces(false, encode_utf8(visible), spans);
    law_shown_part_of_a_line(text, max_columns, max_columns);
    law_note_counts_what_is_left_out(text.len() - visible.len());
    output::lemma_match_bytes(false, path, line_no, text, max_columns, spans, body);
    lemma_text_piece(encode_utf8(visible));
    let look = Look { fg: None, bold: false };
    law_codes_of_a_look(look);
    law_look_is_switched_on_and_off(look, encode_utf8(path));
    law_look_is_switched_on_and_off(look, output::decimal(line_no));
    assert(encode_utf8(Seq::empty()) =~= Seq::<u8>::empty());
    assert(Seq::<u8>::empty() + encode_utf8(path) + Seq::<u8>::empty() =~= encode_utf8(path));
    assert(Seq::<u8>::empty() + output::decimal(line_no) + Seq::<u8>::empty() =~= output::decimal(
        line_no,
    ));
}

/// With color the path is magenta and the number green. What is shown of the line
/// is printed with its matches in bold red, the rest as without color.
pub proof fn law_colored_match(
    path: Seq<char>,
    line_no: nat,
    text: Seq<char>,
    max_columns: int,
    spans: Seq<(usize, usize)>,
)
    requires
        max_columns >= 0,
    ensures
        ({
            let n = if max_columns == 0 || text.len() <= max_columns {
                text.len() as int
            } else {
                max_columns
            };
            let red = Look { fg: Some(Hue::Red), bold: true };
            let bytes = encode_utf8(text.take(n));
            let marks = output::shown(spans, bytes.len() as int);
            output::all_bytes(
                output::match_pieces(true, path, line_no, text, max_columns, spans),
            ) == (encode_utf8("\u{1b}[35m"@) + encode_utf8(path) + encode_utf8("\u{1b}[0m"@))
                + encode_utf8(":"@) + (encode_utf8("\u{1b}[32m"@) + output::decimal(line_no)
                + encode_utf8("\u{1b}[0m"@)) + encode_utf8(":"@) + output::all_bytes(
                output::marked(bytes, marks, 0, red),
            ) + (if n < text.len() {
                encode_utf8(" …[+"@) + output::decimal((text.len() - n) as nat) + encode_utf8(
                    " chars]"@,
                )
            } else {
                Seq::empty()
            }) + encode_utf8("\n"@)
        }),
{
    let visible = output::visible_part(text, max_columns);
    let body = output::body_pieces(true, encode_utf8(visible), spans);
    law_shown_part_of_a_line(text, max_columns, max_columns);
    law_note_counts_what_is_left_out(text.len() - visible.len());
    output::lemma_match_bytes(true, path, line_no, text, max_columns, spans, body);
    let magenta = Look { fg: Some(Hue::Magenta), bold: false };
    let green = Look { fg: Some(Hue::Green), bold: false };
    law_codes_of_a_look(magenta);
    law_codes_of_a_look(green);
    assert(Seq::empty() + "\u{1b}[35m"@ =~= "\u{1b}[35m"@);
    assert(Seq::empty() + "\u{1b}[32m"@ =~= "\u{1b}[32m"@);
    law_look_is_switched_on_and_off(magenta, encode_utf8(path));
    law_look_is_switched_on_and_off(green, output::decimal(line_no));
}

/// A text without matches is printed as it is.
pub proof fn law_text_without_matches_is_unmarked(bytes: Seq<u8>, look: Look)
    ensures
        output::all_bytes(
            output::marked(bytes, output::shown(Seq::empty(), bytes.len() as int), 0, look),
        ) == bytes,
{
    assert(bytes.subrange(0, bytes.len() as int) =~= bytes);
    lemma_text_piece(bytes);
}

proof fn lemma_shown_push(spans: Seq<(usize, usize)>, span: (usize, usize), end: int)
    requires
        pattern::spans_ordered(spans.push(span)),
    ensures
        output::shown(spans.push(span), end) == if span.0 < end && span.0 < span.1 {
            output::shown(spans, end).push(
                (
                    span.0 as int,
                    if span.1 < end {
                        span.1 as int
                    } else {
                        end
                    },
                ),
            )
        } else {
            output::shown(spans, end)
        },
        forall|i: int|
            0 <= i < output::shown(spans, end).len() ==> (#[trigger] output::shown(
                spans,
                end,
            )[i]).1 <= span.0,
    decreases spans.len(),
{
    let more = spans.push(span);
    assert(forall|i: int| 0 <= i < more.len() ==> (#[trigger] more[i]).0 <= more[i].1);
    if spans.len() == 0 {
        assert(more.drop_first() =~= Seq::empty());
        assert(output::shown(Seq::empty(), end) =~= Seq::empty());
        assert(more[0] == span);
        assert(output::shown(spans, end) =~= Seq::empty());
        assert(output::shown(more, end) =~= if span.0 < end && span.0 < span.1 {
            seq![
                (
                    span.0 as int,
                    if span.1 < end {
                        span.1 as int
                    } else {
                        end
                    },
                ),
            ]
        } else {
            Seq::empty()
        });
    } else {
        let rest = spans.drop_first();
        let tail = rest.push(span);
        assert(more.drop_first() =~= tail);
        assert(more[0] == spans[0]);
        assert forall|i: int| 0 <= i < tail.len() implies (#[trigger] tail[i]).0 <= tail[i].1 by {
            assert(tail[i] == more[i + 1]);
        }
        assert forall|i: int, j: int| 0 <= i < j < tail.len() implies (#[trigger] tail[i]).1 <= (
        #[trigger] tail[j]).0 by {
            assert(tail[i] == more[i + 1]);
            assert(tail[j] == more[j + 1]);
        }
        lemma_shown_push(rest, span, end);
        assert(more[0].1 <= more[more.len() - 1].0);
        let marks = output::shown(rest, end);
        let all = output::shown(spans, end);
        let shift: int = all.len() - marks.len();
        assert forall|i: int| 0 <= i < all.len() implies (#[trigger] all[i]).1 <= span.0 by {
            if i >= shift {
                assert(all[i] == marks[i - shift]);
            }
        }
        if spans[0].0 < end && spans[0].0 < spans[0].1 {
            assert(output::shown(more, end) =~= if span.0 < end && span.0 < span.1 {
                all.push(
                    (
                        span.0 as int,
                        if span.1 < end {
                            span.1 as int
                        } else {
                            end
                        },
                    ),
                )
            } else {
                all
            });
        }
    }
}

/// What is printed before `at` where all marks end there or before.
proof fn lemma_one_more_mark(
    text: Seq<u8>,
    marks: Seq<(int, int)>,
    from: int,
    at: int,
    stop: int,
    look: Look,
) -> (head: Seq<u8>)
    requires
        0 <= from <= at < stop <= text.len(),
        forall|i: int| 0 <= i < marks.len() ==> 0 <= (#[trigger] marks[i]).1 <= at,
    ensures
        output::all_bytes(output::marked(text, marks, from, look)) == head + text.skip(at),
        output::all_bytes(output::marked(text, marks.push((at, stop)), from, look)) == head + (
        encode_utf8(look.start_code()) + text.subrange(at, stop) + encode_utf8(look.reset_code()))
            + text.skip(stop),
    decreases marks.len(),
{
    let more = marks.push((at, stop));
    let end = text.len() as int;
    if marks.len() == 0 {
        let head = text.subrange(from, at);
        lemma_text_piece(text.subrange(from, end));
        assert(text.subrange(from, end) =~= head + text.skip(at));
        let tail = seq![Piece::Text(text.subrange(stop, end))];
        assert(more.drop_first() =~= Seq::empty());
        let first = seq![Piece::Text(head)];
        let middle = output::styled(look, text.subrange(at, stop));
        assert(output::marked(text, Seq::empty(), stop, look) =~= tail);
        assert(output::marked(text, more, from, look) =~= first + middle + tail);
        output::lemma_all_bytes_add(first + middle, tail);
        output::lemma_all_bytes_add(first, middle);
        lemma_text_piece(head);
        lemma_text_piece(text.subrange(stop, end));
        law_look_is_switched_on_and_off(look, text.subrange(at, stop));
        assert(text.subrange(stop, end) =~= text.skip(stop));
        head
    } else {
        let rest = marks.drop_first();
        let (a, b) = marks[0];
        assert forall|i: int| 0 <= i < rest.len() implies 0 <= (#[trigger] rest[i]).1 <= at by {
            assert(rest[i] == marks[i + 1]);
        }
        let later = lemma_one_more_mark(text, rest, b, at, stop, look);
        assert(more.drop_first() =~= rest.push((at, stop)));
        assert(more[0] == marks[0]);
        let first = seq![Piece::Text(text.subrange(from, a))] + output::styled(
            look,
            text.subrange(a, b),
        );
        output::lemma_all_bytes_add(first, output::marked(text, rest, b, look));
        output::lemma_all_bytes_add(first, output::marked(text, rest.push((at, stop)), b, look));
        let head = output::all_bytes(first) + later;
        let red = encode_utf8(look.start_code()) + text.subrange(at, stop) + encode_utf8(
            look.reset_code(),
        );
        assert(output::all_bytes(first) + (later + text.skip(at)) =~= head + text.skip(at));
        assert(output::all_bytes(first) + (later + red + text.skip(stop)) =~= head + red
            + text.skip(stop));
        head
    }
}

/// One more match after all others changes what is printed from its start on: it
/// stands between the codes of the look, as far as it is shown, and the rest of
/// the text follows. A match that is empty or not shown at all changes nothing.
pub proof fn law_one_more_match_is_marked(
    bytes: Seq<u8>,
    spans: Seq<(usize, usize)>,
    span: (usize, usize),
    look: Look,
)
    requires
        pattern::spans_ordered(spans.push(span)),
    ensures
        ({
            let end = bytes.len() as int;
            let without = output::all_bytes(
                output::marked(bytes, output::shown(spans, end), 0, look),
            );
            let with = output::all_bytes(
                output::marked(bytes, output::shown(spans.push(span), end), 0, look),
            );
            let stop = if span.1 < end {
                span.1 as int
            } else {
                end
            };
            let head = without.take(without.len() - (end - span.0));
            if span.0 < span.1 && span.0 < end {
                &&& without == head + bytes.skip(span.0 as int)
                &&& with == head + (encode_utf8(look.start_code()) + bytes.subrange(
                    span.0 as int,
                    stop,
                ) + encode_utf8(look.reset_code())) + bytes.skip(stop)
            } else {
                with == without
            }
        }),
{
    let end = bytes.len() as int;
    lemma_shown_push(spans, span, end);
    if span.0 < span.1 && span.0 < end {
        let stop = if span.1 < end {
            span.1 as int
        } else {
            end
        };
        let marks = output::shown(spans, end);
        lemma_shown_starts(spans, end);
        let head = lemma_one_more_mark(bytes, marks, 0, span.0 as int, stop, look);
        let without = output::all_bytes(output::marked(bytes, marks, 0, look));
        assert(head =~= without.take(without.len() - (end - span.0)));
    }
}

proof fn lemma_shown_starts(spans: Seq<(usize, usize)>, end: int)
    requires
        end >= 0,
    ensures
        forall|i: int|
            0 <= i < output::shown(spans, end).len() ==> 0 <= (#[trigger] output::shown(
                spans,
                end,
            )[i]).1,
    decreases spans.len(),
{
    if spans.len() > 0 {
        let marks = output::shown(spans.drop_first(), end);
        let all = output::shown(spans, end);
        let shift: int = all.len() - marks.len();
        lemma_shown_starts(spans.drop_first(), end);
        assert forall|i: int| 0 <= i < all.len() implies 0 <= (#[trigger] all[i]).1 by {
            if i >= shift {
                assert(all[i] == marks[i - shift]);
            }
        }
    }
}

/// Matches are in order where none ends before it starts and none starts before an
/// earlier one ends. They are cut between characters where they start and end
/// within the text and at its characters.
pub proof fn law_matches_in_order(spans: Seq<(usize, usize)>, text: Seq<u8>)
    ensures
        pattern::spans_ordered(spans) <==> (forall|i: int|
            0 <= i < spans.len() ==> (#[trigger] spans[i]).0 <= spans[i].1) && (forall|
            i: int,
            j: int,
        |
            0 <= i < j < spans.len() ==> (#[trigger] spans[i]).1 <= (#[trigger] spans[j]).0),
        pattern::spans_on_chars(spans, text) <==> forall|i: int|
            0 <= i < spans.len() ==> (#[trigger] spans[i]).0 <= text.len() && spans[i].1
                <= text.len() && is_char_boundary(text, spans[i].0 as int) && is_char_boundary(
                text,
                spans[i].1 as int,
            ),
{
}

} // verus!
