//! What is found in every input that is searched, said of its bytes.
use crate::fault::{IoError, IoErrorKind};
use crate::file_laws;
use crate::input;
use crate::lines;
use crate::pattern;
use crate::pattern::Matcher;
use crate::search;
use crate::search::{Found, Hit, Outcome, Scan, SearchStep, MAX_LINE_BYTES};
use vstd::prelude::*;
use vstd::utf8::*;

verus! {

/// All bytes of some chunks are the chunks one after the other.
pub proof fn law_joined_chunks_follow_each_other(chunks: Seq<Seq<u8>>)
    ensures
        search::joined(chunks) == chunks.flatten(),
    decreases chunks.len(),
{
    if chunks.len() > 0 {
        law_joined_chunks_follow_each_other(chunks.drop_first());
    }
}

/// Of a line that is within the limit the whole is kept, and of a longer one a
/// beginning within the limit.
pub proof fn law_kept_part_of_a_line(line: Seq<u8>, buf: Seq<u8>, cap: int)
    ensures
        line.len() <= cap ==> (input::kept(line, buf, cap) <==> buf == line),
        line.len() > cap ==> (input::kept(line, buf, cap) <==> buf.len() <= cap && buf
            == line.take(buf.len() as int)),
{
    if line.len() > cap && buf.len() <= cap && buf == line.take(buf.len() as int) {
        assert(buf.is_prefix_of(line));
    }
    if line.len() > cap && input::kept(line, buf, cap) {
        assert(buf =~= line.take(buf.len() as int));
    }
}

/// Without its end, a line is a beginning of itself that does not end in 0x0a or
/// 0x0d, and nothing but these bytes follows it.
pub proof fn law_line_end_is_stripped(line: Seq<u8>)
    ensures
        ({
            let n = search::strip_line_end(line).len() as int;
            &&& n <= line.len()
            &&& search::strip_line_end(line) == line.take(n)
            &&& n > 0 ==> line[n - 1] != 0x0a && line[n - 1] != 0x0d
            &&& forall|j: int|
                n <= j < line.len() ==> (#[trigger] line[j] == 0x0a || line[j] == 0x0d)
        }),
    decreases line.len(),
{
    let n = search::strip_line_end(line).len() as int;
    if line.len() > 0 && (line.last() == 0x0a || line.last() == 0x0d) {
        let front = line.drop_last();
        law_line_end_is_stripped(front);
        assert(front.take(n) =~= line.take(n));
        assert forall|j: int| n <= j < line.len() implies (#[trigger] line[j] == 0x0a || line[j]
            == 0x0d) by {
            if j < front.len() {
                assert(front[j] == line[j]);
            }
        }
    } else {
        assert(line.take(n) =~= line);
    }
}

/// A line can be searched exactly where it takes at most 1048576 bytes and is
/// valid UTF-8, and its text is the line without the bytes 0x0a and 0x0d at its
/// end.
pub proof fn law_text_of_a_line(line: Seq<u8>)
    ensures
        MAX_LINE_BYTES == 1048576,
        search::line_text(line) is Some <==> line.len() <= 1048576 && valid_utf8(line),
        search::line_text(line) matches Some(text) ==> {
            let n = encode_utf8(text).len() as int;
            &&& n <= line.len()
            &&& encode_utf8(text) == line.take(n)
            &&& n > 0 ==> line[n - 1] != 0x0a && line[n - 1] != 0x0d
            &&& forall|j: int|
                n <= j < line.len() ==> (#[trigger] line[j] == 0x0a || line[j] == 0x0d)
        },
{
    if search::line_text(line) is Some {
        file_laws::law_text_is_the_line(line);
        law_line_end_is_stripped(line);
    }
}

proof fn lemma_text_of(line: Seq<u8>, text: Seq<char>)
    requires
        line.len() <= 1048576,
        valid_utf8(line),
        ({
            let n = encode_utf8(text).len() as int;
            &&& n <= line.len()
            &&& encode_utf8(text) == line.take(n)
            &&& n > 0 ==> line[n - 1] != 0x0a && line[n - 1] != 0x0d
            &&& forall|j: int|
                n <= j < line.len() ==> (#[trigger] line[j] == 0x0a || line[j] == 0x0d)
        }),
    ensures
        search::line_text(line) == Some(text),
{
    let n = encode_utf8(text).len() as int;
    let t = search::line_text(line)->0;
    law_text_of_a_line(line);
    let m = encode_utf8(t).len() as int;
    if n < m {
        assert(line[m - 1] == 0x0a || line[m - 1] == 0x0d);
    } else if m < n {
        assert(line[n - 1] == 0x0a || line[n - 1] == 0x0d);
    }
    encode_utf8_decode_utf8(text);
    encode_utf8_decode_utf8(t);
}

/// Whether a line with this number is among those that are reported.
pub open spec fn reported(founds: Seq<Found>, number: nat) -> bool {
    exists|k: int| 0 <= k < founds.len() && (#[trigger] founds[k]).line_no == number
}

/// Every line that is reported is one of the lines that are searched, takes at
/// most 1048576 bytes and is valid UTF-8. No line is reported twice, and all come
/// in the order of their numbers.
pub proof fn law_reported_lines_are_lines(text: Seq<Seq<u8>>, before: nat, re: Matcher)
    ensures
        ({
            let founds = search::matching_lines(text, before, re);
            &&& forall|k: int|
                0 <= k < founds.len() ==> {
                    let i = (#[trigger] founds[k]).line_no - before - 1;
                    &&& 0 <= i < text.len()
                    &&& text[i].len() <= 1048576
                    &&& valid_utf8(text[i])
                }
            &&& forall|k: int, l: int|
                0 <= k < l < founds.len() ==> (#[trigger] founds[k]).line_no < (
                #[trigger] founds[l]).line_no
        }),
    decreases text.len(),
{
    if text.len() > 0 {
        let later = text.drop_first();
        let rest = search::matching_lines(later, before + 1, re);
        let founds = search::matching_lines(text, before, re);
        law_reported_lines_are_lines(later, before + 1, re);
        law_text_of_a_line(text[0]);
        let shift: int = founds.len() - rest.len();
        assert forall|k: int| 0 <= k < founds.len() implies {
            let i = (#[trigger] founds[k]).line_no - before - 1;
            &&& 0 <= i < text.len()
            &&& text[i].len() <= 1048576
            &&& valid_utf8(text[i])
        } by {
            if k >= shift {
                assert(founds[k] == rest[k - shift]);
                let i = founds[k].line_no - before - 1;
                assert(text[i] == later[i - 1]);
            }
        }
        assert forall|k: int, l: int| 0 <= k < l < founds.len() implies (
        #[trigger] founds[k]).line_no < (#[trigger] founds[l]).line_no by {
            assert(founds[l] == rest[l - shift]);
            if k >= shift {
                assert(founds[k] == rest[k - shift]);
            }
        }
    }
}

proof fn lemma_reported(text: Seq<Seq<u8>>, before: nat, re: Matcher, i: int)
    requires
        0 <= i < text.len(),
    ensures
        ({
            let founds = search::matching_lines(text, before, re);
            let number = (before + i + 1) as nat;
            &&& reported(founds, number) <==> search::found_text(text[i], re) is Some
            &&& forall|k: int|
                0 <= k < founds.len() && (#[trigger] founds[k]).line_no == number
                    ==> search::found_text(text[i], re) == Some(founds[k].text)
        }),
    decreases text.len(),
{
    let later = text.drop_first();
    let rest = search::matching_lines(later, before + 1, re);
    let founds = search::matching_lines(text, before, re);
    let number = (before + i + 1) as nat;
    let shift: int = founds.len() - rest.len();
    law_reported_lines_are_lines(later, before + 1, re);
    assert forall|k: int| 0 <= k < rest.len() implies (#[trigger] rest[k]) == founds[k + shift] by {
    }
    if i == 0 {
        if search::found_text(text[0], re) is Some {
            assert(founds[0].line_no == number);
        }
        assert forall|k: int|
            0 <= k < founds.len() && (#[trigger] founds[k]).line_no
                == number implies search::found_text(text[i], re) == Some(founds[k].text) by {
            if k >= shift {
                assert(rest[k - shift] == founds[k]);
            }
        }
        if reported(founds, number) {
            let k = choose|k: int|
                0 <= k < founds.len() && (#[trigger] founds[k]).line_no == number;
            assert(search::found_text(text[i], re) == Some(founds[k].text));
        }
    } else {
        lemma_reported(later, before + 1, re, i - 1);
        assert(later[i - 1] == text[i]);
        if reported(rest, number) {
            let k = choose|k: int| 0 <= k < rest.len() && (#[trigger] rest[k]).line_no == number;
            assert(founds[k + shift].line_no == number);
        }
        if reported(founds, number) {
            let k = choose|k: int|
                0 <= k < founds.len() && (#[trigger] founds[k]).line_no == number;
            assert(k >= shift);
            assert(rest[k - shift].line_no == number);
        }
        assert forall|k: int|
            0 <= k < founds.len() && (#[trigger] founds[k]).line_no
                == number implies search::found_text(text[i], re) == Some(founds[k].text) by {
            assert(k >= shift);
            assert(rest[k - shift].line_no == number);
        }
    }
}

/// A line that can be searched is reported, under its number and with its text,
/// exactly where the regular expression has a match in the text. Here `t` is the
/// text of the line at `i`: the line without the bytes 0x0a and 0x0d at its end.
pub proof fn law_exactly_the_matching_lines_are_reported(
    text: Seq<Seq<u8>>,
    before: nat,
    re: Matcher,
    i: int,
    t: Seq<char>,
)
    requires
        0 <= i < text.len(),
        text[i].len() <= 1048576,
        valid_utf8(text[i]),
        ({
            let line = text[i];
            let n = encode_utf8(t).len() as int;
            &&& n <= line.len()
            &&& encode_utf8(t) == line.take(n)
            &&& n > 0 ==> line[n - 1] != 0x0a && line[n - 1] != 0x0d
            &&& forall|j: int|
                n <= j < line.len() ==> (#[trigger] line[j] == 0x0a || line[j] == 0x0d)
        }),
    ensures
        ({
            let founds = search::matching_lines(text, before, re);
            &&& (exists|k: int|
                0 <= k < founds.len() && (#[trigger] founds[k]).line_no == before + i + 1)
                <==> pattern::regex_matches(re.pattern(), re.ignore_case(), t).len() > 0
            &&& forall|k: int|
                0 <= k < founds.len() && (#[trigger] founds[k]).line_no == before + i + 1
                    ==> founds[k].text == t
        }),
{
    let founds = search::matching_lines(text, before, re);
    lemma_text_of(text[i], t);
    lemma_reported(text, before, re, i);
    assert(reported(founds, (before + i + 1) as nat) <==> exists|k: int|
        0 <= k < founds.len() && (#[trigger] founds[k]).line_no == before + i + 1);
}

/// A step of a search is told apart by its kind, and a match by its number and its
/// text.
pub proof fn law_steps_keep_what_was_found(step: SearchStep, hit: Hit)
    ensures
        hit.found().line_no == hit.line_no,
        hit.found().text == hit.text@,
        match step {
            SearchStep::Match(hit) => step.outcome() == Outcome::Match(
                Found { line_no: hit.line_no as nat, text: hit.text@ },
            ),
            SearchStep::Pending => step.outcome() is Pending,
            SearchStep::Done => step.outcome() is Done,
            SearchStep::Failed(e) => step.outcome() == Outcome::Failed(e),
        },
{
}

/// What a new search finds in all and the failure that ends it.
proof fn lemma_fresh_run(reads: Seq<Result<Seq<u8>, IoError>>, re: Matcher)
    ensures
        ({
            let failed = search::failure(false, reads);
            let bytes = search::searched(search::arrived(false, reads), failed is Some);
            search::fresh().run(reads, re) == (
                search::matching_lines(lines::lines(bytes), 0, re),
                failed,
            )
        }),
{
    let s = search::fresh();
    search::law_search_finds_matching_lines(s, reads, re);
    assert(s.ahead(search::arrived(false, reads)) =~= search::arrived(false, reads));
}

/// A search of an input that arrives in chunks reports the lines of the bytes that
/// match, into whatever chunks these are cut.
pub proof fn law_search_of_chunks(chunks: Seq<Seq<u8>>, re: Matcher)
    requires
        forall|i: int| 0 <= i < chunks.len() ==> (#[trigger] chunks[i]).len() > 0,
    ensures
        search::fresh().run(file_laws::chunk_reads(chunks), re) == (
            search::matching_lines(lines::lines(chunks.flatten()), 0, re),
            None::<IoError>,
        ),
{
    let all = chunks.flatten();
    law_joined_chunks_follow_each_other(chunks);
    lemma_fresh_run(file_laws::chunk_reads(chunks), re);
    file_laws::lemma_chunk_reads(false, chunks);
    if all.len() > 0 && all.last() != 0x0a {
        lines::lemma_last_newline(all);
    }
}

/// Of an input that arrives in chunks, a search reports the line at `i` of its bytes
/// under the number `i + 1` exactly where the regular expression has a match in the
/// text `t` of the line, and then with that text.
pub proof fn law_search_reports_every_matching_line(
    chunks: Seq<Seq<u8>>,
    re: Matcher,
    i: int,
    t: Seq<char>,
)
    requires
        forall|k: int| 0 <= k < chunks.len() ==> (#[trigger] chunks[k]).len() > 0,
        0 <= i < lines::lines(chunks.flatten()).len(),
        ({
            let line = lines::lines(chunks.flatten())[i];
            let n = encode_utf8(t).len() as int;
            &&& line.len() <= 1048576
            &&& valid_utf8(line)
            &&& n <= line.len()
            &&& encode_utf8(t) == line.take(n)
            &&& n > 0 ==> line[n - 1] != 0x0a && line[n - 1] != 0x0d
            &&& forall|j: int|
                n <= j < line.len() ==> (#[trigger] line[j] == 0x0a || line[j] == 0x0d)
        }),
    ensures
        ({
            let founds = search::fresh().run(file_laws::chunk_reads(chunks), re).0;
            &&& (exists|k: int| 0 <= k < founds.len() && (#[trigger] founds[k]).line_no == i + 1)
                <==> pattern::regex_matches(re.pattern(), re.ignore_case(), t).len() > 0
            &&& forall|k: int|
                0 <= k < founds.len() && (#[trigger] founds[k]).line_no == i + 1 ==> founds[k].text
                    == t
        }),
{
    law_search_of_chunks(chunks, re);
    law_exactly_the_matching_lines_are_reported(lines::lines(chunks.flatten()), 0, re, i, t);
}

/// A search of an input that fails reports the lines that match among those before
/// the failure that end in 0x0a, and the failure.
pub proof fn law_search_of_failing_chunks(chunks: Seq<Seq<u8>>, e: IoError, re: Matcher)
    requires
        e.kind != IoErrorKind::Interrupted,
        forall|i: int| 0 <= i < chunks.len() ==> (#[trigger] chunks[i]).len() > 0,
    ensures
        search::fresh().run(file_laws::failing_reads(chunks, e), re) == (
            search::matching_lines(lines::lines(lines::complete(chunks.flatten())), 0, re),
            Some(e),
        ),
{
    law_joined_chunks_follow_each_other(chunks);
    lemma_fresh_run(file_laws::failing_reads(chunks, e), re);
    file_laws::lemma_failing_reads(false, chunks, e);
}

pub proof fn lemma_interrupted(
    mid_line: bool,
    reads: Seq<Result<Seq<u8>, IoError>>,
    i: int,
    e: IoError,
)
    requires
        0 <= i <= reads.len(),
        e.kind == IoErrorKind::Interrupted,
    ensures
        ({
            let more = reads.insert(i, Err(e));
            &&& search::arrived(mid_line, more) == search::arrived(mid_line, reads)
            &&& search::failure(mid_line, more) == search::failure(mid_line, reads)
        }),
    decreases i,
{
    let more = reads.insert(i, Err(e));
    if i == 0 {
        assert(more.drop_first() =~= reads);
    } else {
        let later = reads.drop_first();
        assert(more.drop_first() =~= later.insert(i - 1, Err(e)));
        assert(more[0] == reads[0]);
        lemma_interrupted(mid_line, later, i - 1, e);
        lemma_interrupted(false, later, i - 1, e);
        if let Ok(bytes) = reads[0] {
            if bytes.len() > 0 {
                lemma_interrupted(bytes.last() != lines::NEWLINE, later, i - 1, e);
            }
        }
    }
}

/// A read that was interrupted makes no difference to a search, wherever it comes.
pub proof fn law_interrupted_reads_are_tried_again(
    reads: Seq<Result<Seq<u8>, IoError>>,
    i: int,
    e: IoError,
    re: Matcher,
)
    requires
        0 <= i <= reads.len(),
        e.kind == IoErrorKind::Interrupted,
    ensures
        search::fresh().run(reads.insert(i, Err(e)), re) == search::fresh().run(reads, re),
{
    lemma_fresh_run(reads, re);
    lemma_fresh_run(reads.insert(i, Err(e)), re);
    lemma_interrupted(false, reads, i, e);
}

pub proof fn lemma_chunks_then(
    mid_line: bool,
    chunks: Seq<Seq<u8>>,
    later: Seq<Result<Seq<u8>, IoError>>,
)
    requires
        forall|i: int| 0 <= i < chunks.len() ==> (#[trigger] chunks[i]).len() > 0,
    ensures
        ({
            let all = search::joined(chunks);
            let then_mid_line = if all.len() == 0 {
                mid_line
            } else {
                all.last() != lines::NEWLINE
            };
            let reads = file_laws::chunk_reads(chunks) + later;
            &&& search::arrived(mid_line, reads) == all + search::arrived(then_mid_line, later)
            &&& search::failure(mid_line, reads) == search::failure(then_mid_line, later)
        }),
    decreases chunks.len(),
{
    let reads = file_laws::chunk_reads(chunks) + later;
    if chunks.len() == 0 {
        assert(reads =~= later);
        assert(search::joined(chunks) + search::arrived(mid_line, later) =~= search::arrived(
            mid_line,
            later,
        ));
    } else {
        let rest = chunks.drop_first();
        let head = chunks[0];
        assert forall|i: int| 0 <= i < rest.len() implies (#[trigger] rest[i]).len() > 0 by {
            assert(rest[i] == chunks[i + 1]);
        }
        lemma_chunks_then(head.last() != lines::NEWLINE, rest, later);
        assert(reads.drop_first() =~= file_laws::chunk_reads(rest) + later);
        assert(reads[0] == Ok::<Seq<u8>, IoError>(head));
        assert(head.len() > 0);
        assert(search::joined(rest).len() == 0 ==> search::joined(chunks) =~= head);
        assert(search::joined(rest).len() > 0 ==> search::joined(chunks).last() == search::joined(
            rest,
        ).last());
        let tail = search::arrived(
            if search::joined(rest).len() == 0 {
                head.last() != lines::NEWLINE
            } else {
                search::joined(rest).last() != lines::NEWLINE
            },
            later,
        );
        assert(head + (search::joined(rest) + tail) =~= search::joined(chunks) + tail);
    }
}

/// A read that returns nothing ends a line that has been begun, as a byte 0x0a
/// would, and otherwise the input, whatever comes after it.
pub proof fn law_reads_that_return_nothing(
    chunks: Seq<Seq<u8>>,
    later: Seq<Result<Seq<u8>, IoError>>,
    re: Matcher,
)
    requires
        forall|i: int| 0 <= i < chunks.len() ==> (#[trigger] chunks[i]).len() > 0,
    ensures
        ({
            let all = chunks.flatten();
            let nothing = seq![Ok::<Seq<u8>, IoError>(Seq::<u8>::empty())];
            let newline = seq![Ok::<Seq<u8>, IoError>(seq![0x0au8])];
            let reads = file_laws::chunk_reads(chunks);
            search::fresh().run(reads + (nothing + later), re) == if all.len() > 0 && all.last()
                != 0x0a {
                search::fresh().run(reads + (newline + later), re)
            } else {
                search::fresh().run(reads, re)
            }
        }),
{
    let all = chunks.flatten();
    let nothing = seq![Ok::<Seq<u8>, IoError>(Seq::<u8>::empty())];
    let newline = seq![Ok::<Seq<u8>, IoError>(seq![0x0au8])];
    let reads = file_laws::chunk_reads(chunks);
    law_joined_chunks_follow_each_other(chunks);
    lemma_chunks_then(false, chunks, nothing + later);
    lemma_chunks_then(false, chunks, newline + later);
    lemma_chunks_then(false, chunks, Seq::empty());
    assert((nothing + later).drop_first() =~= later);
    assert((newline + later).drop_first() =~= later);
    assert(reads + Seq::empty() =~= reads);
    assert(seq![0x0au8].last() == 0x0a);
    lemma_fresh_run(reads + (nothing + later), re);
    lemma_fresh_run(reads + (newline + later), re);
    lemma_fresh_run(reads, re);
}

/// A search asks for more only once every line that has arrived has been read: what
/// is left is the beginning of a line. What it finds has arrived before.
pub proof fn law_search_asks_for_more_only_where_needed(s: Scan, re: Matcher)
    requires
        !s.line.contains(0x0a),
    ensures
        s.next(re).0 is Pending ==> {
            let after = s.next(re).1;
            &&& after.end is Open
            &&& after.unread.len() == 0
            &&& !after.line.contains(0x0a)
            &&& (s.line + s.unread).contains(0x0a) || s.end is Eof || after.line == s.line
                + s.unread
        },
        s.next(re).0 is Done ==> s.end is Eof,
        s.next(re).0 is Failed ==> s.end is Failed,
        s.lines_left() == s.unread.len() + if s.line.len() > 0 {
            1int
        } else {
            0
        },
    decreases s.lines_left(),
{
    let i = lines::first_newline(s.unread);
    let line = s.line + s.unread.take(i);
    lines::law_newline_is_line_feed(s.unread);
    if i < s.unread.len() || s.end is Eof && line.len() > 0 {
        if i < s.unread.len() {
            assert((s.line + s.unread)[s.line.len() + i] == 0x0a);
        }
        if search::found_text(line, re) is None {
            law_search_asks_for_more_only_where_needed(s.past_line(i), re);
        }
    } else {
        assert(line =~= s.line + s.unread);
        assert forall|j: int| 0 <= j < line.len() implies #[trigger] line[j] != 0x0a by {
            if j < s.line.len() {
                assert(s.line.contains(s.line[j]));
            }
        }
    }
}

} // verus!
