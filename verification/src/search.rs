//! Which lines of an input match, and under which numbers.
use crate::fault::{IoError, IoErrorKind};
use crate::input::{read_capped_line, Input, InputEnd, ReadError};
use crate::lines;
use crate::lines::{CARRIAGE_RETURN, NEWLINE};
use crate::pattern;
use crate::pattern::Matcher;
use core::str::Utf8Error;
use vstd::prelude::*;
use vstd::string::*;
use vstd::utf8::*;

verus! {

/// The longest line that is searched. Longer ones are passed over.
pub const MAX_LINE_BYTES: usize = 1024 * 1024;

/// The error of the UTF-8 decoder of the standard library.
#[verifier::external_type_specification]
#[verifier::external_body]
pub struct ExUtf8Error(core::str::Utf8Error);

/// `core::str::from_utf8` accepts exactly the bytes that are valid UTF-8, and
/// returns the text that they encode.
pub assume_specification[ core::str::from_utf8 ](v: &[u8]) -> (r: Result<&str, Utf8Error>)
    ensures
        r is Ok <==> valid_utf8(v@),
        r matches Ok(s) ==> encode_utf8(s@) == v@,
;

/// A line without the carriage returns and newlines at its end.
pub open spec fn strip_line_end(line: Seq<u8>) -> Seq<u8>
    decreases line.len(),
{
    if line.len() > 0 && (line.last() == NEWLINE || line.last() == CARRIAGE_RETURN) {
        strip_line_end(line.drop_last())
    } else {
        line
    }
}

/// The text of a line that can be searched: one that is valid UTF-8 and not too
/// long.
pub open spec fn line_text(line: Seq<u8>) -> Option<Seq<char>> {
    if line.len() <= MAX_LINE_BYTES && valid_utf8(line) {
        Some(decode_utf8(strip_line_end(line)))
    } else {
        None
    }
}

/// The text of a line that matches.
pub open spec fn found_text(line: Seq<u8>, re: Matcher) -> Option<Seq<char>> {
    match line_text(line) {
        Some(text) => if re.finds(text) {
            Some(text)
        } else {
            None
        },
        None => None,
    }
}

proof fn lemma_strip_line_end(line: Seq<u8>, n: int)
    requires
        0 <= n <= line.len(),
        n > 0 ==> line[n - 1] != NEWLINE && line[n - 1] != CARRIAGE_RETURN,
        forall|j: int|
            n <= j < line.len() ==> (#[trigger] line[j] == NEWLINE || line[j] == CARRIAGE_RETURN),
    ensures
        strip_line_end(line) == line.take(n),
    decreases line.len(),
{
    if n < line.len() {
        assert(line[line.len() - 1] == line.last());
        assert(line.drop_last().take(n) =~= line.take(n));
        lemma_strip_line_end(line.drop_last(), n);
    } else {
        assert(line.take(n) =~= line);
    }
}

/// The text of a line that can be searched, without the line end.
pub fn decode_line(line: &[u8]) -> (r: Option<&str>)
    requires
        line@.len() <= MAX_LINE_BYTES,
    ensures
        match r {
            Some(text) => line_text(line@) == Some(text@),
            None => line_text(line@) is None,
        },
        r is Some <==> valid_utf8(line@),
        r matches Some(text) ==> {
            let n = encode_utf8(text@).len() as int;
            &&& encode_utf8(text@) == line@.take(n)
            &&& n > 0 ==> line@[n - 1] != 0x0a && line@[n - 1] != 0x0d
            &&& forall|j: int|
                n <= j < line@.len() ==> (#[trigger] line@[j] == 0x0a || line@[j] == 0x0d)
        },
{
    let text = match core::str::from_utf8(line) {
        Ok(text) => text,
        Err(_) => return None,
    };
    let mut n: usize = line.len();
    while n > 0 && (line[n - 1] == NEWLINE || line[n - 1] == CARRIAGE_RETURN)
        invariant
            n <= line@.len(),
            forall|j: int|
                n <= j < line@.len() ==> (#[trigger] line@[j] == NEWLINE || line@[j]
                    == CARRIAGE_RETURN),
        decreases n,
    {
        n -= 1;
    }
    proof {
        lemma_strip_line_end(line@, n as int);
        if n < line@.len() {
            assert(line@[n as int] == NEWLINE || line@[n as int] == CARRIAGE_RETURN);
            is_char_boundary_iff_not_is_continuation_byte(line@, n as int);
        } else {
            is_char_boundary_start_end_of_seq(line@);
        }
    }
    let (kept, _) = text.split_at(n);
    proof {
        assert(encode_utf8(kept@) =~= line@.take(n as int));
        encode_utf8_decode_utf8(kept@);
    }
    Some(kept)
}

/// A line that matches.
#[derive(Debug)]
pub struct Hit {
    pub line_no: usize,
    pub text: String,
}

/// How far a search has come.
#[derive(Debug)]
pub enum SearchStep {
    /// The next line that matches.
    Match(Hit),
    /// No further line matches in what has arrived: more input is needed.
    Pending,
    /// No further line matches, and a read between two lines has returned nothing.
    Done,
    /// The input could not be read any further.
    Failed(IoError),
}

/// The model of a search in progress.
pub struct Scan {
    /// What has been read of the line that is being read.
    pub line: Seq<u8>,
    pub unread: Seq<u8>,
    pub end: InputEnd,
    /// The number of lines that have been read.
    pub line_no: nat,
}

/// The model of a line that matches: its number and its text.
pub struct Found {
    pub line_no: nat,
    pub text: Seq<char>,
}

/// The model of [`SearchStep`].
pub enum Outcome {
    Match(Found),
    Pending,
    Done,
    Failed(IoError),
}

impl Hit {
    pub open spec fn found(&self) -> Found {
        Found { line_no: self.line_no as nat, text: self.text@ }
    }
}

impl SearchStep {
    pub open spec fn outcome(&self) -> Outcome {
        match *self {
            SearchStep::Match(hit) => Outcome::Match(hit.found()),
            SearchStep::Pending => Outcome::Pending,
            SearchStep::Done => Outcome::Done,
            SearchStep::Failed(e) => Outcome::Failed(e),
        }
    }
}

impl Scan {
    /// A bound on the number of lines that are still to be read out of what has
    /// arrived.
    pub open spec fn lines_left(self) -> nat {
        self.unread.len() + if self.line.len() > 0 {
            1nat
        } else {
            0nat
        }
    }

    /// The search after the line that ends at `i` in the unread bytes or, where
    /// that is past their end, with a read that returned nothing.
    pub open spec fn past_line(self, i: int) -> Scan {
        Scan {
            line: Seq::empty(),
            unread: if 0 <= i < self.unread.len() {
                self.unread.skip(i + 1)
            } else {
                Seq::empty()
            },
            end: if 0 <= i < self.unread.len() {
                self.end
            } else {
                InputEnd::Open
            },
            line_no: self.line_no + 1,
        }
    }

    /// The search after a read that returned `bytes`.
    pub open spec fn filled(self, bytes: Seq<u8>) -> Scan {
        Scan {
            unread: self.unread + bytes,
            end: if bytes.len() == 0 {
                InputEnd::Eof
            } else {
                InputEnd::Open
            },
            ..self
        }
    }

    /// The search after a read that failed.
    pub open spec fn failed(self, e: IoError) -> Scan {
        if e.kind == IoErrorKind::Interrupted {
            self
        } else {
            Scan { end: InputEnd::Failed(e), ..self }
        }
    }

    /// Reads lines up to the next one that matches.
    pub open spec fn next(self, re: Matcher) -> (Outcome, Scan)
        decreases self.lines_left(),
    {
        let i = lines::first_newline(self.unread);
        let line = self.line + self.unread.take(i);
        if 0 <= i < self.unread.len() || self.end is Eof && line.len() > 0 && self.lines_left()
            > 0 {
            let past = self.past_line(i);
            match found_text(line, re) {
                Some(text) => (Outcome::Match(Found { line_no: past.line_no, text }), past),
                None => past.next(re),
            }
        } else {
            match self.end {
                InputEnd::Eof => (
                    Outcome::Done,
                    Scan {
                        line: Seq::empty(),
                        unread: Seq::empty(),
                        end: InputEnd::Open,
                        line_no: self.line_no,
                    },
                ),
                InputEnd::Open => (Outcome::Pending, Scan { line, unread: Seq::empty(), ..self }),
                InputEnd::Failed(e) => (
                    Outcome::Failed(e),
                    Scan {
                        line: Seq::empty(),
                        unread: Seq::empty(),
                        end: InputEnd::Open,
                        line_no: self.line_no,
                    },
                ),
            }
        }
    }
}

/// A search of an input of which nothing has arrived.
pub open spec fn fresh() -> Scan {
    Scan { line: Seq::empty(), unread: Seq::empty(), end: InputEnd::Open, line_no: 0 }
}

/// A search asks for more only once it has dealt with all that has arrived.
pub proof fn lemma_next_end(s: Scan, re: Matcher)
    ensures
        s.next(re).0 is Pending ==> s.next(re).1.end is Open,
        s.next(re).0 is Pending && !(s.end is Open) ==> s.next(re).1.lines_left() < s.lines_left(),
        s.next(re).0 is Match ==> s.next(re).1.lines_left() < s.lines_left(),
        s.next(re).1.lines_left() <= s.lines_left(),
    decreases s.lines_left(),
{
    let i = lines::first_newline(s.unread);
    lines::lemma_first_newline(s.unread);
    let line = s.line + s.unread.take(i);
    if i < s.unread.len() || s.end is Eof && line.len() > 0 {
        if found_text(line, re) is None {
            lemma_next_end(s.past_line(i), re);
        }
    }
}

/// A search through an input, line by line.
pub struct LineSearch {
    input: Input,
    buf: Vec<u8>,
    line_no: usize,
}

impl View for LineSearch {
    type V = Scan;

    closed spec fn view(&self) -> Scan {
        Scan {
            line: self.input.line(),
            unread: self.input.unread(),
            end: self.input.end(),
            line_no: self.line_no as nat,
        }
    }
}

impl LineSearch {
    pub closed spec fn wf(&self) -> bool {
        &&& self.input.wf()
        &&& self.input.resumes(self.buf@, MAX_LINE_BYTES as int)
        &&& self.line_no + self@.lines_left() <= usize::MAX
    }

    /// A search that has not started yet.
    pub fn new(input: Input) -> (search: LineSearch)
        requires
            input.wf(),
            input.line() == Seq::<u8>::empty(),
        ensures
            search.wf(),
            search@ == (Scan {
                line: Seq::empty(),
                unread: input.unread(),
                end: input.end(),
                line_no: 0,
            }),
    {
        let search = LineSearch { input, buf: Vec::new(), line_no: 0 };
        proof {
            search.input.lemma_fresh(search.buf@, MAX_LINE_BYTES as int);
            search.input.lemma_size();
        }
        search
    }

    /// What has been read of a line holds no newline.
    pub proof fn lemma_line(&self)
        requires
            self.wf(),
        ensures
            lines::one_line(self@.line),
    {
        self.input.lemma_line();
    }

    /// Whether the lines of `extra` more bytes could still be numbered.
    pub fn has_room(&self, extra: usize) -> (b: bool)
        requires
            self.wf(),
        ensures
            b == (self@.line_no + self@.lines_left() + extra <= usize::MAX),
    {
        let partial: usize = if self.input.mid_line() {
            1
        } else {
            0
        };
        let left = usize::MAX - self.line_no;
        self.input.unread_len() <= left && partial <= left - self.input.unread_len() && extra
            <= left - self.input.unread_len() - partial
    }

    /// Takes in what a read has returned: the next bytes, or nothing.
    pub fn fill(&mut self, bytes: &[u8])
        requires
            old(self).wf(),
            old(self)@.end is Open,
            old(self)@.line_no + old(self)@.lines_left() + bytes@.len() <= usize::MAX,
        ensures
            final(self).wf(),
            final(self)@ == old(self)@.filled(bytes@),
    {
        self.input.fill(bytes);
    }

    /// Takes in that a read has failed. One that was interrupted is to be tried
    /// again.
    pub fn fail(&mut self, e: IoError)
        requires
            old(self).wf(),
            old(self)@.end is Open,
        ensures
            final(self).wf(),
            final(self)@ == old(self)@.failed(e),
    {
        self.input.fail(e);
    }
}

/// What a search returns for the line `line_no` with the text `text`, where `found`
/// says whether it matches.
pub fn hit_if(found: bool, line_no: usize, text: &str) -> (r: Option<Hit>)
    ensures
        match r {
            Some(hit) => found && hit.found() == (Found { line_no: line_no as nat, text: text@ }),
            None => !found,
        },
        r matches Some(hit) ==> hit.line_no == line_no && hit.text@ == text@,
{
    if found {
        Some(Hit { line_no, text: text.to_owned() })
    } else {
        None
    }
}

/// Continues a search up to the next line that matches.
///
/// Lines that are not valid UTF-8 and lines of more than [`MAX_LINE_BYTES`]
/// bytes count, but never match.
pub fn search_reader(reader: &mut LineSearch, re: &Matcher) -> (step: SearchStep)
    requires
        old(reader).wf(),
    ensures
        final(reader).wf(),
        (step.outcome(), final(reader)@) == old(reader)@.next(*re),
        step matches SearchStep::Match(hit) ==> hit.line_no == final(reader)@.line_no
            && pattern::regex_matches(re.pattern(), re.ignore_case(), hit.text@).len() > 0,
{
    loop
        invariant
            reader.wf(),
            reader@.next(*re) == old(reader)@.next(*re),
        decreases reader@.lines_left(),
    {
        let ghost before = reader@;
        proof {
            lines::lemma_first_newline(before.unread);
        }
        let read = read_capped_line(&mut reader.input, &mut reader.buf, MAX_LINE_BYTES);
        proof {
            if !(read matches Err(ReadError::Pending)) {
                reader.input.lemma_fresh(reader.buf@, MAX_LINE_BYTES as int);
            }
        }
        match read {
            Err(ReadError::Pending) => {
                return SearchStep::Pending;
            },
            Err(ReadError::Failed(e)) => {
                return SearchStep::Failed(e);
            },
            Ok(None) => {
                return SearchStep::Done;
            },
            Ok(Some(oversized)) => {
                reader.line_no += 1;
                if !oversized {
                    if let Some(text) = decode_line(reader.buf.as_slice()) {
                        if let Some(hit) = hit_if(re.is_match(text), reader.line_no, text) {
                            return SearchStep::Match(hit);
                        }
                    }
                }
            },
        }
    }
}

/// The lines of a complete text that match, with their numbers, where `line_no`
/// lines come before the text.
pub open spec fn matching_lines(text: Seq<Seq<u8>>, line_no: nat, re: Matcher) -> Seq<Found>
    decreases text.len(),
{
    if text.len() == 0 {
        Seq::empty()
    } else {
        let rest = matching_lines(text.drop_first(), line_no + 1, re);
        match found_text(text[0], re) {
            Some(text) => seq![Found { line_no: line_no + 1, text }] + rest,
            None => rest,
        }
    }
}

/// What the next of some reads returns. All reads after the last of them return
/// nothing.
pub open spec fn next_read(reads: Seq<Result<Seq<u8>, IoError>>) -> Result<Seq<u8>, IoError> {
    if reads.len() == 0 {
        Ok(Seq::empty())
    } else {
        reads[0]
    }
}

/// The reads after the next one.
pub open spec fn later_reads(reads: Seq<Result<Seq<u8>, IoError>>) -> Seq<
    Result<Seq<u8>, IoError>,
> {
    if reads.len() == 0 {
        reads
    } else {
        reads.drop_first()
    }
}

/// What some reads return in all, up to the end of the input or to a failure,
/// where `mid_line` says whether they begin within a line.
///
/// A read that returns nothing within a line ends the line, as a newline does;
/// between two lines it ends the input. A read that was interrupted is tried
/// again.
pub open spec fn arrived(mid_line: bool, reads: Seq<Result<Seq<u8>, IoError>>) -> Seq<u8>
    decreases reads.len(),
{
    if reads.len() == 0 {
        if mid_line {
            seq![NEWLINE]
        } else {
            Seq::empty()
        }
    } else {
        let later = reads.drop_first();
        match reads[0] {
            Ok(bytes) => if bytes.len() > 0 {
                bytes + arrived(bytes.last() != NEWLINE, later)
            } else if mid_line {
                seq![NEWLINE] + arrived(false, later)
            } else {
                Seq::empty()
            },
            Err(e) => if e.kind == IoErrorKind::Interrupted {
                arrived(mid_line, later)
            } else {
                Seq::empty()
            },
        }
    }
}

/// The failure that ends some reads, if they do not reach the end of the input.
pub open spec fn failure(mid_line: bool, reads: Seq<Result<Seq<u8>, IoError>>) -> Option<IoError>
    decreases reads.len(),
{
    if reads.len() == 0 {
        None
    } else {
        let later = reads.drop_first();
        match reads[0] {
            Ok(bytes) => if bytes.len() > 0 {
                failure(bytes.last() != NEWLINE, later)
            } else if mid_line {
                failure(false, later)
            } else {
                None
            },
            Err(e) => if e.kind == IoErrorKind::Interrupted {
                failure(mid_line, later)
            } else {
                Some(e)
            },
        }
    }
}

/// What is searched of an input: all of it or, where it fails, its whole lines.
pub open spec fn searched(bytes: Seq<u8>, fails: bool) -> Seq<u8> {
    if fails {
        lines::complete(bytes)
    } else {
        bytes
    }
}

impl Scan {
    /// The search after a read.
    pub open spec fn read(self, r: Result<Seq<u8>, IoError>) -> Scan {
        match r {
            Ok(bytes) => self.filled(bytes),
            Err(e) => self.failed(e),
        }
    }

    /// Whether what has arrived ends within a line.
    pub open spec fn mid_line(self) -> bool {
        let all = self.line + self.unread;
        all.len() > 0 && all.last() != NEWLINE
    }

    /// What is still to arrive, and the failure that ends it, where `reads` are
    /// still to come.
    pub open spec fn to_come(self, reads: Seq<Result<Seq<u8>, IoError>>) -> (
        Seq<u8>,
        Option<IoError>,
    ) {
        match self.end {
            InputEnd::Open => (arrived(self.mid_line(), reads), failure(self.mid_line(), reads)),
            InputEnd::Eof => if self.mid_line() {
                (seq![NEWLINE] + arrived(false, reads), failure(false, reads))
            } else {
                (Seq::empty(), None)
            },
            InputEnd::Failed(e) => (Seq::empty(), Some(e)),
        }
    }

    /// All that has not been searched, should `rest` arrive after it.
    pub open spec fn ahead(self, rest: Seq<u8>) -> Seq<u8> {
        self.line + self.unread + rest
    }

    /// The lines that are still to be found, where `reads` are still to come.
    pub open spec fn to_find(self, reads: Seq<Result<Seq<u8>, IoError>>, re: Matcher) -> Seq<
        Found,
    > {
        let (rest, failed) = self.to_come(reads);
        matching_lines(
            lines::lines(searched(self.ahead(rest), failed is Some)),
            self.line_no,
            re,
        )
    }

    /// The lines that match from here on, where `outcome` has been reached and
    /// `reads` are still to come, and the failure that ends the search.
    pub open spec fn run_from(
        self,
        outcome: Outcome,
        reads: Seq<Result<Seq<u8>, IoError>>,
        re: Matcher,
    ) -> (Seq<Found>, Option<IoError>)
        decreases
            reads.len(),
            self.lines_left(),
            match outcome {
                Outcome::Match(_) => 2nat,
                Outcome::Pending => 1nat,
                _ => 0nat,
            },
    {
        proof {
            lemma_next_end(self, re);
            lemma_next_end(self.filled(Seq::empty()), re);
        }
        match outcome {
            Outcome::Match(found) => {
                let (then_outcome, after) = self.next(re);
                let (founds, failed) = after.run_from(then_outcome, reads, re);
                (seq![found] + founds, failed)
            },
            Outcome::Pending => {
                let (then_outcome, after) = self.read(next_read(reads)).next(re);
                after.run_from(then_outcome, later_reads(reads), re)
            },
            Outcome::Done => (Seq::empty(), None),
            Outcome::Failed(e) => (Seq::empty(), Some(e)),
        }
    }

    /// The lines that match in all, where `reads` are still to come, and the
    /// failure that ends the search.
    pub open spec fn run(self, reads: Seq<Result<Seq<u8>, IoError>>, re: Matcher) -> (
        Seq<Found>,
        Option<IoError>,
    ) {
        let (outcome, after) = self.next(re);
        after.run_from(outcome, reads, re)
    }
}

/// All bytes of some chunks, in order.
pub open spec fn joined(chunks: Seq<Seq<u8>>) -> Seq<u8>
    decreases chunks.len(),
{
    if chunks.len() == 0 {
        Seq::empty()
    } else {
        chunks[0] + joined(chunks.drop_first())
    }
}

proof fn lemma_matching_lines_first(line: Seq<u8>, rest: Seq<Seq<u8>>, line_no: nat, re: Matcher)
    ensures
        matching_lines(seq![line] + rest, line_no, re) == match found_text(line, re) {
            Some(text) => seq![Found { line_no: line_no + 1, text }] + matching_lines(
                rest,
                line_no + 1,
                re,
            ),
            None => matching_lines(rest, line_no + 1, re),
        },
{
    assert((seq![line] + rest).drop_first() =~= rest);
}

/// A read turns what is still to arrive into what has arrived.
pub proof fn lemma_read(s: Scan, reads: Seq<Result<Seq<u8>, IoError>>, re: Matcher)
    requires
        s.end is Open,
    ensures
        ({
            let after = s.read(next_read(reads));
            let later = later_reads(reads);
            &&& after.line == s.line
            &&& after.to_find(later, re) == s.to_find(reads, re)
            &&& after.to_come(later).1 == s.to_come(reads).1
        }),
{
    let after = s.read(next_read(reads));
    assert(after.ahead(after.to_come(later_reads(reads)).0) =~= s.ahead(s.to_come(reads).0));
}

/// What a search finds next is the first of what is still to be found, whatever
/// comes after what has arrived; where it finds nothing it keeps all that is
/// still to be found.
pub proof fn lemma_next(s: Scan, reads: Seq<Result<Seq<u8>, IoError>>, re: Matcher)
    requires
        lines::one_line(s.line),
    ensures
        ({
            let (outcome, after) = s.next(re);
            let failed = s.to_come(reads).1;
            &&& lines::one_line(after.line)
            &&& match outcome {
                Outcome::Match(found) => {
                    &&& s.to_find(reads, re) == seq![found] + after.to_find(reads, re)
                    &&& after.to_come(reads).1 == failed
                },
                Outcome::Pending => {
                    &&& s.to_find(reads, re) == after.to_find(reads, re)
                    &&& after.to_come(reads).1 == failed
                },
                Outcome::Done => s.to_find(reads, re) == Seq::<Found>::empty() && failed is None,
                Outcome::Failed(e) => {
                    &&& s.to_find(reads, re) == Seq::<Found>::empty()
                    &&& failed == Some(e)
                },
            }
        }),
    decreases s.lines_left(),
{
    let i = lines::first_newline(s.unread);
    let line = s.line + s.unread.take(i);
    let (rest, failed) = s.to_come(reads);
    lines::lemma_first_newline(s.unread);
    assert forall|j: int| 0 <= j < line.len() implies #[trigger] line[j] != NEWLINE by {
        if j < s.line.len() {
            assert(s.line[j] != NEWLINE);
        } else {
            assert(s.unread[j - s.line.len()] != NEWLINE);
        }
    }
    if i == s.unread.len() {
        assert(line =~= s.line + s.unread);
    }
    if i < s.unread.len() || s.end is Eof && line.len() > 0 {
        let past = s.past_line(i);
        let (past_rest, past_failed) = past.to_come(reads);
        assert(past.line + past.unread =~= past.unread);
        assert(past.unread.len() > 0 ==> past.unread.last() == s.unread.last());
        assert(i < s.unread.len() ==> (s.line + s.unread).last() == s.unread.last());
        assert(past_failed == failed);
        let tail = past.ahead(past_rest);
        assert(s.ahead(rest) =~= line + seq![NEWLINE] + tail);
        lines::lemma_complete_first(line, tail);
        lines::lemma_line_and_rest(line, searched(tail, failed is Some));
        lemma_matching_lines_first(
            line,
            lines::lines(searched(tail, failed is Some)),
            s.line_no,
            re,
        );
        if found_text(line, re) is None {
            lemma_next(past, reads, re);
        }
    } else if s.end is Open {
        let after = s.next(re).1;
        assert(after.line + after.unread =~= s.line + s.unread);
    } else {
        assert(s.ahead(rest) =~= line);
        lines::lemma_complete_none(line);
    }
}

/// However the input is cut into reads, the search finds exactly the lines of
/// the input that match, each once, in order and under its number. Where the
/// input fails, these are its whole lines before the failure that match.
pub proof fn law_search_finds_matching_lines(
    s: Scan,
    reads: Seq<Result<Seq<u8>, IoError>>,
    re: Matcher,
)
    requires
        lines::one_line(s.line),
    ensures
        s.run(reads, re) == (s.to_find(reads, re), s.to_come(reads).1),
    decreases
            reads.len(),
            s.lines_left(),
            if s.end is Open {
                1nat
            } else {
                0nat
            },
{
    let (outcome, after) = s.next(re);
    lemma_next(s, reads, re);
    lemma_next_end(s, re);
    match outcome {
        Outcome::Match(found) => {
            law_search_finds_matching_lines(after, reads, re);
        },
        Outcome::Pending => {
            lemma_read(after, reads, re);
            law_search_finds_matching_lines(after.read(next_read(reads)), later_reads(reads), re);
        },
        _ => {},
    }
}

} // verus!
