//! What holds of the output of every file that is searched.
use crate::fault::{FileAccess, IoError, IoErrorKind, ReadFailure, SearchError};
use crate::file;
use crate::file::{
    FileAction, FileDo, FileEvent, FileModel, FileStage, BINARY_SNIFF_BYTES,
};
use crate::lines;
use crate::lines::{CARRIAGE_RETURN, NEWLINE};
use crate::output_laws;
use crate::pattern;
use crate::pattern::Matcher;
use crate::output;
use crate::search;
use crate::search::Found;
use crate::search_laws;
use vstd::prelude::*;
use vstd::utf8::*;

verus! {

proof fn lemma_strip_keeps_utf8(line: Seq<u8>)
    requires
        valid_utf8(line),
    ensures
        valid_utf8(search::strip_line_end(line)),
        search::strip_line_end(line).is_prefix_of(line),
    decreases line.len(),
{
    if line.len() > 0 && (line.last() == NEWLINE || line.last() == CARRIAGE_RETURN) {
        let n = line.len() - 1;
        is_char_boundary_iff_not_is_continuation_byte(line, n);
        valid_utf8_split(line, n);
        assert(line.drop_last() =~= line.subrange(0, n));
        lemma_strip_keeps_utf8(line.drop_last());
    }
}

/// The text of a line that can be searched is the line itself, without the
/// carriage returns at its end.
pub proof fn law_text_is_the_line(line: Seq<u8>)
    requires
        search::line_text(line) is Some,
    ensures
        encode_utf8(search::line_text(line)->0) == search::strip_line_end(line),
{
    lemma_strip_keeps_utf8(line);
    decode_utf8_encode_utf8(search::strip_line_end(line));
}

proof fn lemma_encoded_newline(text: Seq<char>, i: int)
    requires
        0 <= i < text.len(),
        text[i] == '\n',
    ensures
        exists|j: int|
            0 <= j < encode_utf8(text).len() && #[trigger] encode_utf8(text)[j] == NEWLINE,
    decreases text.len(),
{
    let rest = text.drop_first();
    let first = encode_scalar(text[0] as u32);
    assert(encode_utf8(text) == first + encode_utf8(rest));
    if i == 0 {
        is_ascii_chars_encode_utf8(seq!['\n']);
        encode_utf8_first_scalar(text);
        assert(encode_utf8(text)[0] == NEWLINE);
    } else {
        assert(rest[i - 1] == text[i]);
        lemma_encoded_newline(rest, i - 1);
        let j = choose|j: int|
            0 <= j < encode_utf8(rest).len() && #[trigger] encode_utf8(rest)[j] == NEWLINE;
        assert(encode_utf8(text)[first.len() + j] == NEWLINE);
    }
}

proof fn lemma_text_lacks_newline(line: Seq<u8>)
    requires
        lines::one_line(line),
        search::line_text(line) is Some,
    ensures
        output_laws::lacks_char(search::line_text(line)->0, '\n'),
{
    let text = search::line_text(line)->0;
    law_text_is_the_line(line);
    lemma_strip_keeps_utf8(line);
    assert forall|i: int| 0 <= i < text.len() implies #[trigger] text[i] != '\n' by {
        if text[i] == '\n' {
            lemma_encoded_newline(text, i);
            let j = choose|j: int|
                0 <= j < encode_utf8(text).len() && #[trigger] encode_utf8(text)[j] == NEWLINE;
            assert(line[j] == NEWLINE);
        }
    }
}

proof fn lemma_lines_are_lines(bytes: Seq<u8>)
    ensures
        forall|i: int|
            0 <= i < lines::lines(bytes).len() ==> lines::one_line(
                #[trigger] lines::lines(bytes)[i],
            ),
    decreases bytes.len(),
{
    lines::lemma_first_newline(bytes);
    let n = lines::first_newline(bytes);
    let all = lines::lines(bytes);
    if n < bytes.len() {
        let rest = lines::lines(bytes.skip(n + 1));
        lemma_lines_are_lines(bytes.skip(n + 1));
        assert forall|i: int| 0 <= i < all.len() implies lines::one_line(#[trigger] all[i]) by {
            if i > 0 {
                assert(all[i] == rest[i - 1]);
            }
        }
    }
}

proof fn lemma_matches_lack_newline(text: Seq<Seq<u8>>, line_no: nat, re: Matcher)
    requires
        forall|i: int| 0 <= i < text.len() ==> lines::one_line(#[trigger] text[i]),
    ensures
        ({
            let founds = search::matching_lines(text, line_no, re);
            forall|i: int|
                0 <= i < founds.len() ==> output_laws::lacks_char((#[trigger] founds[i]).text, '\n')
        }),
    decreases text.len(),
{
    if text.len() > 0 {
        let later = text.drop_first();
        assert forall|i: int| 0 <= i < later.len() implies lines::one_line(#[trigger] later[i]) by {
            assert(later[i] == text[i + 1]);
        }
        lemma_matches_lack_newline(later, line_no + 1, re);
        let rest = search::matching_lines(later, line_no + 1, re);
        let founds = search::matching_lines(text, line_no, re);
        if search::found_text(text[0], re) is Some {
            lemma_text_lacks_newline(text[0]);
            assert forall|i: int| 0 <= i < founds.len() implies output_laws::lacks_char(
                (#[trigger] founds[i]).text,
                '\n',
            ) by {
                if i > 0 {
                    assert(founds[i] == rest[i - 1]);
                }
            }
        }
    }
}

proof fn lemma_printed_lines(
    path: Seq<char>,
    max_columns: nat,
    color: bool,
    re: Matcher,
    founds: Seq<Found>,
)
    requires
        output_laws::lacks_char(path, '\n'),
        forall|i: int|
            0 <= i < founds.len() ==> pattern::spans_ordered(
                re.spans((#[trigger] founds[i]).text),
            ),
        forall|i: int|
            0 <= i < founds.len() ==> output_laws::lacks_char((#[trigger] founds[i]).text, '\n'),
    ensures
        lines::lines(search::joined(file::all_printed(path, max_columns, color, re, founds)))
            == founds.map_values(
            |found: Found| file::printed(path, max_columns, color, re, found).drop_last(),
        ),
    decreases founds.len(),
{
    let printed = file::all_printed(path, max_columns, color, re, founds);
    if founds.len() > 0 {
        let found = founds[0];
        let later = founds.drop_first();
        assert forall|i: int| 0 <= i < later.len() implies pattern::spans_ordered(
            re.spans((#[trigger] later[i]).text),
        ) && output_laws::lacks_char(later[i].text, '\n') by {
            assert(later[i] == founds[i + 1]);
        }
        lemma_printed_lines(path, max_columns, color, re, later);
        output_laws::law_match_is_one_line(
            color,
            path,
            found.line_no,
            found.text,
            max_columns as int,
            re.spans(found.text),
        );
        let first = file::printed(path, max_columns, color, re, found);
        assert(printed[0] == first);
        assert(printed.drop_first() =~= file::all_printed(path, max_columns, color, re, later));
        let rest = search::joined(printed.drop_first());
        let line = first.drop_last();
        assert(first + rest =~= line + seq![NEWLINE] + rest);
        lines::lemma_line_and_rest(line, rest);
    }
}

/// A file is printed with exactly one line for each line that matches, where its
/// path holds no newline. The matches in these lines come in order, as
/// [`Matcher::find_all`] returns them.
pub proof fn law_one_line_per_match(
    path: Seq<char>,
    max_columns: nat,
    color: bool,
    re: Matcher,
    bytes: Seq<u8>,
)
    requires
        output_laws::lacks_char(path, '\n'),
        ({
            let founds = search::matching_lines(lines::lines(bytes), 0, re);
            forall|i: int|
                0 <= i < founds.len() ==> pattern::spans_ordered(
                    re.spans((#[trigger] founds[i]).text),
                )
        }),
    ensures
        ({
            let founds = search::matching_lines(lines::lines(bytes), 0, re);
            lines::lines(search::joined(file::all_printed(path, max_columns, color, re, founds)))
                == founds.map_values(
                |found: Found| file::printed(path, max_columns, color, re, found).drop_last(),
            )
        }),
{
    let founds = search::matching_lines(lines::lines(bytes), 0, re);
    lemma_lines_are_lines(bytes);
    lemma_matches_lack_newline(lines::lines(bytes), 0, re);
    lemma_printed_lines(path, max_columns, color, re, founds);
}

/// Reads that return `chunks` one after the other, and then nothing.
pub open spec fn chunk_reads(chunks: Seq<Seq<u8>>) -> Seq<Result<Seq<u8>, IoError>> {
    chunks.map_values(|chunk: Seq<u8>| Ok::<Seq<u8>, IoError>(chunk))
}

pub proof fn lemma_chunk_reads(mid_line: bool, chunks: Seq<Seq<u8>>)
    requires
        forall|i: int| 0 <= i < chunks.len() ==> (#[trigger] chunks[i]).len() > 0,
    ensures
        ({
            let all = search::joined(chunks);
            let ends_mid_line = if all.len() == 0 {
                mid_line
            } else {
                all.last() != NEWLINE
            };
            search::arrived(mid_line, chunk_reads(chunks)) == if ends_mid_line {
                all + seq![NEWLINE]
            } else {
                all
            }
        }),
        search::failure(mid_line, chunk_reads(chunks)) is None,
    decreases chunks.len(),
{
    let reads = chunk_reads(chunks);
    if chunks.len() > 0 {
        let later = chunks.drop_first();
        assert forall|i: int| 0 <= i < later.len() implies (#[trigger] later[i]).len() > 0 by {
            assert(later[i] == chunks[i + 1]);
        }
        let head = chunks[0];
        lemma_chunk_reads(head.last() != NEWLINE, later);
        assert(reads.drop_first() =~= chunk_reads(later));
        assert(reads[0] == Ok::<Seq<u8>, IoError>(head));
        assert(search::joined(later).len() > 0 ==> search::joined(chunks).last() == search::joined(
            later,
        ).last());
        assert(search::joined(later).len() == 0 ==> search::joined(chunks) =~= head);
        assert(head + (search::joined(later) + seq![NEWLINE]) =~= search::joined(chunks) + seq![
            NEWLINE,
        ]);
    } else if mid_line {
        assert(search::joined(chunks) + seq![NEWLINE] =~= seq![NEWLINE]);
    }
}

/// A file that is read to its end is printed with exactly the lines of its bytes
/// that match, into whatever chunks these are cut, unless its first chunk shows
/// that it is binary.
pub proof fn law_whole_file_prints_its_lines(
    m: FileModel,
    chunks: Seq<Seq<u8>>,
    re: Matcher,
    color: bool,
)
    requires
        m.scan == search::fresh(),
        m.stage == FileStage::Sniffing,
        forall|i: int| 0 <= i < chunks.len() ==> (#[trigger] chunks[i]).len() > 0,
    ensures
        m.run(FileDo::Fill, chunk_reads(chunks), re, color) == (
            if chunks.len() > 0 && file::is_binary(chunks[0]) {
                Seq::empty()
            } else {
                file::all_printed(
                    m.path@,
                    m.max_columns,
                    color,
                    re,
                    search::matching_lines(lines::lines(search::joined(chunks)), 0, re),
                )
            },
            m.result(None),
        ),
{
    let reads = chunk_reads(chunks);
    let all = search::joined(chunks);
    lemma_chunk_reads(false, chunks);
    file::law_file_prints_its_matching_lines(m, reads, re, color);
    if chunks.len() == 0 {
        assert(!file::is_binary(Seq::empty()));
    } else {
        assert(reads[0] == Ok::<Seq<u8>, IoError>(chunks[0]));
        assert(chunks[0].len() > 0);
    }
    if all.len() > 0 && all.last() != NEWLINE {
        lines::lemma_last_newline(all);
    }
}

/// Reads that return `chunks` one after the other, and then fail.
pub open spec fn failing_reads(chunks: Seq<Seq<u8>>, e: IoError) -> Seq<
    Result<Seq<u8>, IoError>,
> {
    chunk_reads(chunks).push(Err(e))
}

pub proof fn lemma_failing_reads(mid_line: bool, chunks: Seq<Seq<u8>>, e: IoError)
    requires
        e.kind != IoErrorKind::Interrupted,
        forall|i: int| 0 <= i < chunks.len() ==> (#[trigger] chunks[i]).len() > 0,
    ensures
        search::arrived(mid_line, failing_reads(chunks, e)) == search::joined(chunks),
        search::failure(mid_line, failing_reads(chunks, e)) == Some(e),
    decreases chunks.len(),
{
    let reads = failing_reads(chunks, e);
    if chunks.len() > 0 {
        let later = chunks.drop_first();
        assert forall|i: int| 0 <= i < later.len() implies (#[trigger] later[i]).len() > 0 by {
            assert(later[i] == chunks[i + 1]);
        }
        lemma_failing_reads(chunks[0].last() != NEWLINE, later, e);
        assert(reads.drop_first() =~= failing_reads(later, e));
        assert(reads[0] == Ok::<Seq<u8>, IoError>(chunks[0]));
    }
}

/// A file that cannot be read to its end is printed as far as it has been read:
/// with exactly the lines that match among the whole lines before the failure.
pub proof fn law_failed_file_prints_its_whole_lines(
    m: FileModel,
    chunks: Seq<Seq<u8>>,
    e: IoError,
    re: Matcher,
    color: bool,
)
    requires
        m.scan == search::fresh(),
        m.stage == FileStage::Sniffing,
        e.kind != IoErrorKind::Interrupted,
        forall|i: int| 0 <= i < chunks.len() ==> (#[trigger] chunks[i]).len() > 0,
        chunks.len() > 0 ==> !file::is_binary(chunks[0]),
    ensures
        m.run(FileDo::Fill, failing_reads(chunks, e), re, color) == (
            file::all_printed(
                m.path@,
                m.max_columns,
                color,
                re,
                search::matching_lines(
                    lines::lines(lines::complete(search::joined(chunks))),
                    0,
                    re,
                ),
            ),
            m.result(Some(e)),
        ),
{
    let reads = failing_reads(chunks, e);
    lemma_failing_reads(false, chunks, e);
    file::law_file_prints_its_matching_lines(m, reads, re, color);
    if chunks.len() == 0 {
        assert(search::joined(chunks) =~= Seq::empty());
        lines::lemma_complete_none(search::joined(chunks));
        assert(m.run(FileDo::Fill, reads, re, color).0 =~= file::all_printed(
            m.path@,
            m.max_columns,
            color,
            re,
            Seq::empty(),
        ));
    } else {
        assert(reads[0] == Ok::<Seq<u8>, IoError>(chunks[0]));
        assert(chunks[0].len() > 0);
    }
}

/// A file is binary exactly where there is a zero byte among its first 8192 bytes,
/// as far as these have been read.
pub proof fn law_binary_files_begin_with_a_zero_byte(head: Seq<u8>)
    ensures
        BINARY_SNIFF_BYTES == 8192,
        file::is_binary(head) <==> exists|i: int|
            0 <= i < head.len() && i < 8192 && #[trigger] head[i] == 0,
{
    if exists|i: int| 0 <= i < head.len() && i < 8192 && #[trigger] head[i] == 0 {
        let i = choose|i: int| 0 <= i < head.len() && i < 8192 && #[trigger] head[i] == 0;
        assert(head[i] == 0);
    }
}

/// A file whose first chunk has no zero byte among its first 8192 bytes is always
/// searched: for each line of its bytes that is reported, a match is written, with
/// what the regular expression matches in the line.
pub proof fn law_text_file_is_searched(
    m: FileModel,
    chunks: Seq<Seq<u8>>,
    re: Matcher,
    color: bool,
)
    requires
        m.scan == search::fresh(),
        m.stage == FileStage::Sniffing,
        forall|i: int| 0 <= i < chunks.len() ==> (#[trigger] chunks[i]).len() > 0,
        chunks.len() > 0 ==> forall|i: int|
            0 <= i < chunks[0].len() && i < 8192 ==> #[trigger] chunks[0][i] != 0,
    ensures
        ({
            let founds = search::matching_lines(lines::lines(chunks.flatten()), 0, re);
            let (writes, r) = m.run(FileDo::Fill, chunk_reads(chunks), re, color);
            &&& r is Ok
            &&& writes.len() == founds.len()
            &&& forall|k: int|
                0 <= k < founds.len() ==> #[trigger] writes[k] == output::all_bytes(
                    output::match_pieces(
                        color,
                        m.path@,
                        founds[k].line_no,
                        founds[k].text,
                        m.max_columns as int,
                        pattern::regex_matches(re.pattern(), re.ignore_case(), founds[k].text),
                    ),
                )
        }),
{
    if chunks.len() > 0 {
        law_binary_files_begin_with_a_zero_byte(chunks[0]);
    }
    law_whole_file_prints_its_lines(m, chunks, re, color);
    search_laws::law_joined_chunks_follow_each_other(chunks);
}

/// Of a file whose first chunk has a zero byte among its first 8192 bytes nothing
/// is printed, whatever follows, and that is no failure.
pub proof fn law_file_with_a_zero_byte_is_skipped(
    m: FileModel,
    head: Seq<u8>,
    later: Seq<Result<Seq<u8>, IoError>>,
    i: int,
    re: Matcher,
    color: bool,
)
    requires
        m.scan == search::fresh(),
        m.stage == FileStage::Sniffing,
        0 <= i < head.len(),
        i < 8192,
        head[i] == 0,
    ensures
        ({
            let reads = seq![Ok::<Seq<u8>, IoError>(head)] + later;
            let (writes, r) = m.run(FileDo::Fill, reads, re, color);
            writes.len() == 0 && r is Ok
        }),
{
    let reads = seq![Ok::<Seq<u8>, IoError>(head)] + later;
    law_binary_files_begin_with_a_zero_byte(head);
    file::law_file_prints_its_matching_lines(m, reads, re, color);
    assert(reads[0] == Ok::<Seq<u8>, IoError>(head));
}

/// After a first read that returned nothing the rest of the file is searched as an
/// input of its own, whatever its bytes.
pub proof fn law_first_read_can_return_nothing(
    m: FileModel,
    later: Seq<Result<Seq<u8>, IoError>>,
    re: Matcher,
    color: bool,
)
    requires
        m.scan == search::fresh(),
        m.stage == FileStage::Sniffing,
    ensures
        ({
            let reads = seq![Ok::<Seq<u8>, IoError>(Seq::<u8>::empty())] + later;
            let (founds, failed) = search::fresh().run(later, re);
            m.run(FileDo::Fill, reads, re, color) == (
                file::all_printed(m.path@, m.max_columns, color, re, founds),
                m.result(failed),
            )
        }),
{
    let reads = seq![Ok::<Seq<u8>, IoError>(Seq::<u8>::empty())] + later;
    law_binary_files_begin_with_a_zero_byte(Seq::empty());
    file::law_file_prints_its_matching_lines(m, reads, re, color);
    assert(reads[0] == Ok::<Seq<u8>, IoError>(Seq::<u8>::empty()));
    assert(reads.drop_first() =~= later);
    let s = search::fresh();
    search::law_search_finds_matching_lines(s, later, re);
    assert(s.ahead(search::arrived(false, later)) =~= search::arrived(false, later));
}

/// A read that was interrupted makes no difference to the search of a file, except
/// for the first one, which is not tried again.
pub proof fn law_interrupted_reads_of_a_file(
    m: FileModel,
    reads: Seq<Result<Seq<u8>, IoError>>,
    i: int,
    e: IoError,
    re: Matcher,
    color: bool,
)
    requires
        m.scan == search::fresh(),
        m.stage == FileStage::Sniffing,
        e.kind == IoErrorKind::Interrupted,
        0 <= i <= reads.len(),
    ensures
        i > 0 ==> m.run(FileDo::Fill, reads.insert(i, Err(e)), re, color) == m.run(
            FileDo::Fill,
            reads,
            re,
            color,
        ),
        i == 0 ==> m.run(FileDo::Fill, reads.insert(i, Err(e)), re, color).0.len() == 0 && m.run(
            FileDo::Fill,
            reads.insert(i, Err(e)),
            re,
            color,
        ).1 == Err::<(), SearchError>(
            SearchError::Read(ReadFailure { access: FileAccess::Read, path: m.path, cause: e }),
        ),
{
    let more = reads.insert(i, Err(e));
    file::law_file_prints_its_matching_lines(m, reads, re, color);
    file::law_file_prints_its_matching_lines(m, more, re, color);
    if i == 0 {
        assert(more[0] == Err::<Seq<u8>, IoError>(e));
    } else {
        assert(more[0] == reads[0]);
        search_laws::lemma_interrupted(false, reads, i, e);
        assert(more.drop_first() =~= reads.drop_first().insert(i - 1, Err(e)));
        search_laws::lemma_interrupted(false, reads.drop_first(), i - 1, e);
    }
}

/// What is written for a line that is reported is its match, under its number, with
/// what the regular expression matches in it.
pub proof fn law_written_matches(
    path: Seq<char>,
    max_columns: nat,
    color: bool,
    re: Matcher,
    founds: Seq<Found>,
)
    ensures
        ({
            let writes = file::all_printed(path, max_columns, color, re, founds);
            &&& writes.len() == founds.len()
            &&& forall|k: int|
                0 <= k < founds.len() ==> #[trigger] writes[k] == output::all_bytes(
                    output::match_pieces(
                        color,
                        path,
                        founds[k].line_no,
                        founds[k].text,
                        max_columns as int,
                        pattern::regex_matches(re.pattern(), re.ignore_case(), founds[k].text),
                    ),
                )
        }),
{
}

/// A file is opened first and then read. A file that cannot be opened or read ends
/// its search with that failure, and so does a write that fails. No step changes
/// the path or the limit on the columns.
pub proof fn law_steps_of_a_file(
    m: FileModel,
    event: FileEvent,
    failed: Option<IoError>,
    re: Matcher,
    color: bool,
)
    ensures
        m.expects(event) <==> match event {
            FileEvent::Start => m.stage == FileStage::Ready,
            FileEvent::Opened(_) => m.stage == FileStage::Opening,
            FileEvent::Filled(r) => {
                &&& m.stage == FileStage::Sniffing || m.stage == FileStage::Reading
                &&& r is Ok ==> m.scan.line_no + m.scan.unread.len() + (if m.scan.line.len() > 0 {
                    1int
                } else {
                    0
                }) + r->Ok_0@.len() <= usize::MAX
            },
            FileEvent::Wrote(_) => m.stage == FileStage::Writing,
        },
        m.result(failed) == match failed {
            None => Ok::<(), SearchError>(()),
            Some(e) => Err(
                SearchError::Read(ReadFailure { access: FileAccess::Read, path: m.path, cause: e }),
            ),
        },
        ({
            let (after, action) = m.after(event, re, color);
            &&& after.path == m.path
            &&& after.max_columns == m.max_columns
            &&& match event {
                FileEvent::Start => {
                    &&& action is Open
                    &&& after.stage == FileStage::Opening
                    &&& after.scan == m.scan
                },
                FileEvent::Opened(Ok(_)) => {
                    &&& action is Fill
                    &&& after.stage == FileStage::Sniffing
                    &&& after.scan == m.scan
                },
                FileEvent::Opened(Err(e)) => action == FileDo::Finish(
                    Err(
                        SearchError::Read(
                            ReadFailure { access: FileAccess::Open, path: m.path, cause: e },
                        ),
                    ),
                ),
                FileEvent::Filled(Ok(bytes)) => (after, action) == m.filled(Ok(bytes@), re, color),
                FileEvent::Filled(Err(e)) => {
                    &&& (after, action) == m.filled(Err(e), re, color)
                    &&& m.stage == FileStage::Sniffing ==> action == FileDo::Finish(
                        Err(
                            SearchError::Read(
                                ReadFailure { access: FileAccess::Read, path: m.path, cause: e },
                            ),
                        ),
                    )
                },
                FileEvent::Wrote(Ok(r)) => (after, action) == m.wrote(Ok(r), re, color),
                FileEvent::Wrote(Err(e)) => action == FileDo::Finish(Err(SearchError::Write(e))),
            }
        }),
{
}

/// An action is told apart by its kind, and carries what is to be written or the
/// result.
pub proof fn law_actions_keep_what_they_carry(action: FileAction)
    ensures
        match action {
            FileAction::Open => action.model() is Open,
            FileAction::Fill => action.model() is Fill,
            FileAction::Write(bytes) => action.model() == FileDo::Write(bytes@),
            FileAction::Finish(r) => action.model() == FileDo::Finish(r),
        },
{
}

} // verus!
