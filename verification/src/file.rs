//! The search of one file, as a machine: it is told what came of the last
//! action and names the next one.
use crate::fault::{FileAccess, IoError, ReadFailure, SearchError};
use crate::input::{Input, InputEnd};
use crate::lines;
use crate::output;
use crate::output::Printer;
use crate::pattern::Matcher;
use crate::search;
use crate::search::{search_reader, Found, LineSearch, Outcome, Scan, SearchStep};
use vstd::prelude::*;

verus! {

/// How many bytes at the beginning of a file decide whether it is binary.
pub const BINARY_SNIFF_BYTES: usize = 8 * 1024;

/// Whether a file that starts with `head` is binary: whether a zero byte occurs
/// early in it.
pub open spec fn is_binary(head: Seq<u8>) -> bool {
    exists|i: int| 0 <= i < head.len() && i < BINARY_SNIFF_BYTES && #[trigger] head[i] == 0
}

pub fn looks_binary(head: &[u8]) -> (b: bool)
    ensures
        b == is_binary(head@),
        b == (exists|i: int| 0 <= i < head@.len() && i < 8192 && #[trigger] head@[i] == 0),
{
    let mut i: usize = 0;
    while i < head.len() && i < BINARY_SNIFF_BYTES
        invariant
            i <= head@.len(),
            forall|j: int| 0 <= j < i ==> #[trigger] head@[j] != 0,
        decreases head@.len() - i,
    {
        if head[i] == 0 {
            return true;
        }
        i += 1;
    }
    false
}

/// What the search of a file waits for.
#[derive(Debug, Clone, Copy, PartialEq, Eq, Structural)]
pub enum FileStage {
    /// To be started.
    Ready,
    /// The file to be opened.
    Opening,
    /// The first bytes of the file.
    Sniffing,
    /// More bytes of the file.
    Reading,
    /// A match to be written.
    Writing,
    /// Nothing: the search has ended.
    Finished,
}

/// What has happened.
#[derive(Debug)]
pub enum FileEvent {
    Start,
    Opened(Result<(), IoError>),
    /// A read has returned some bytes or, at the end of the file, none, or has
    /// failed.
    Filled(Result<Vec<u8>, IoError>),
    Wrote(Result<(), IoError>),
}

/// What is to be done next.
#[derive(Debug)]
pub enum FileAction {
    Open,
    Fill,
    Write(Vec<u8>),
    Finish(Result<(), SearchError>),
}

/// The model of [`FileAction`].
pub enum FileDo {
    Open,
    Fill,
    Write(Seq<u8>),
    Finish(Result<(), SearchError>),
}

impl FileAction {
    pub open spec fn model(&self) -> FileDo {
        match *self {
            FileAction::Open => FileDo::Open,
            FileAction::Fill => FileDo::Fill,
            FileAction::Write(bytes) => FileDo::Write(bytes@),
            FileAction::Finish(r) => FileDo::Finish(r),
        }
    }
}

/// The model of the search of a file.
pub struct FileModel {
    pub path: String,
    pub max_columns: nat,
    pub stage: FileStage,
    pub scan: Scan,
}

/// What is printed for a line that matches.
pub open spec fn printed(
    path: Seq<char>,
    max_columns: nat,
    color: bool,
    re: Matcher,
    found: Found,
) -> Seq<u8> {
    output::all_bytes(
        output::match_pieces(
            color,
            path,
            found.line_no,
            found.text,
            max_columns as int,
            re.spans(found.text),
        ),
    )
}

impl FileModel {
    pub open spec fn finished(self, r: Result<(), SearchError>) -> (FileModel, FileDo) {
        (FileModel { stage: FileStage::Finished, ..self }, FileDo::Finish(r))
    }

    pub open spec fn unreadable(self, access: FileAccess, cause: IoError) -> Result<
        (),
        SearchError,
    > {
        Err(SearchError::Read(ReadFailure { access, path: self.path, cause }))
    }

    /// Searches on in what has arrived.
    pub open spec fn advance(self, re: Matcher, color: bool) -> (FileModel, FileDo) {
        let (outcome, scan) = self.scan.next(re);
        let m = FileModel { scan, ..self };
        match outcome {
            Outcome::Match(found) => (
                FileModel { stage: FileStage::Writing, ..m },
                FileDo::Write(printed(self.path@, self.max_columns, color, re, found)),
            ),
            Outcome::Pending => (FileModel { stage: FileStage::Reading, ..m }, FileDo::Fill),
            Outcome::Done => m.finished(Ok(())),
            Outcome::Failed(e) => m.finished(self.unreadable(FileAccess::Read, e)),
        }
    }

    pub open spec fn started(self) -> (FileModel, FileDo) {
        (FileModel { stage: FileStage::Opening, ..self }, FileDo::Open)
    }

    pub open spec fn opened(self, r: Result<(), IoError>) -> (FileModel, FileDo) {
        match r {
            Ok(_) => (FileModel { stage: FileStage::Sniffing, ..self }, FileDo::Fill),
            Err(e) => self.finished(self.unreadable(FileAccess::Open, e)),
        }
    }

    /// A file that is binary is not searched. Its first read is not tried again
    /// where it was interrupted; where it returned nothing, the next one decides
    /// whether the file ends there.
    pub open spec fn filled(self, r: Result<Seq<u8>, IoError>, re: Matcher, color: bool) -> (
        FileModel,
        FileDo,
    ) {
        match r {
            Ok(bytes) => if self.stage == FileStage::Sniffing && is_binary(bytes) {
                self.finished(Ok(()))
            } else if self.stage == FileStage::Sniffing && bytes.len() == 0 {
                (FileModel { stage: FileStage::Reading, ..self }, FileDo::Fill)
            } else {
                FileModel { scan: self.scan.filled(bytes), ..self }.advance(re, color)
            },
            Err(e) => if self.stage == FileStage::Sniffing {
                self.finished(self.unreadable(FileAccess::Read, e))
            } else {
                FileModel { scan: self.scan.failed(e), ..self }.advance(re, color)
            },
        }
    }

    pub open spec fn wrote(self, r: Result<(), IoError>, re: Matcher, color: bool) -> (
        FileModel,
        FileDo,
    ) {
        match r {
            Ok(_) => self.advance(re, color),
            Err(e) => self.finished(Err(SearchError::Write(e))),
        }
    }

    /// Whether an event is one that the search waits for. Of the bytes that
    /// arrive all lines must get a number.
    pub open spec fn expects(self, event: FileEvent) -> bool {
        match event {
            FileEvent::Start => self.stage == FileStage::Ready,
            FileEvent::Opened(_) => self.stage == FileStage::Opening,
            FileEvent::Filled(Ok(bytes)) => {
                &&& self.stage == FileStage::Sniffing || self.stage == FileStage::Reading
                &&& self.scan.line_no + self.scan.lines_left() + bytes@.len() <= usize::MAX
            },
            FileEvent::Filled(Err(_)) => self.stage == FileStage::Sniffing || self.stage
                == FileStage::Reading,
            FileEvent::Wrote(_) => self.stage == FileStage::Writing,
        }
    }

    /// The search after an event, and what is to be done then.
    pub open spec fn after(self, event: FileEvent, re: Matcher, color: bool) -> (
        FileModel,
        FileDo,
    ) {
        match event {
            FileEvent::Start => self.started(),
            FileEvent::Opened(r) => self.opened(r),
            FileEvent::Filled(Ok(bytes)) => self.filled(Ok(bytes@), re, color),
            FileEvent::Filled(Err(e)) => self.filled(Err(e), re, color),
            FileEvent::Wrote(r) => self.wrote(r, re, color),
        }
    }
}

/// The search of one file.
pub struct FileSearch {
    path: String,
    max_columns: usize,
    stage: FileStage,
    lines: LineSearch,
}

impl View for FileSearch {
    type V = FileModel;

    closed spec fn view(&self) -> FileModel {
        FileModel {
            path: self.path,
            max_columns: self.max_columns as nat,
            stage: self.stage,
            scan: self.lines@,
        }
    }
}

impl FileSearch {
    pub closed spec fn wf(&self) -> bool {
        &&& self.lines.wf()
        &&& self.stage != FileStage::Writing && self.stage != FileStage::Finished
            ==> self.lines@.end is Open
    }

    /// A search of the file `path` that has not started. Of each match the first
    /// `max_columns` characters are printed, or all where that is 0.
    pub fn new(path: &str, max_columns: usize) -> (s: FileSearch)
        ensures
            s.wf(),
            s@.path@ == path@,
            s@.max_columns == max_columns,
            s@.stage == FileStage::Ready,
            s@.scan == search::fresh(),
    {
        FileSearch {
            path: path.to_owned(),
            max_columns,
            stage: FileStage::Ready,
            lines: LineSearch::new(Input::new()),
        }
    }

    /// Whether the lines of `extra` more bytes could still be numbered.
    pub fn has_room(&self, extra: usize) -> (b: bool)
        requires
            self.wf(),
        ensures
            b == (self@.scan.line_no + self@.scan.lines_left() + extra <= usize::MAX),
    {
        self.lines.has_room(extra)
    }

    fn unreadable(&self, access: FileAccess, cause: IoError) -> (r: Result<(), SearchError>)
        ensures
            r == self@.unreadable(access, cause),
    {
        Err(SearchError::Read(ReadFailure { access, path: self.path.clone(), cause }))
    }

    fn advance(&mut self, re: &Matcher, printer: &Printer) -> (action: FileAction)
        requires
            old(self).lines.wf(),
        ensures
            final(self).wf(),
            (final(self)@, action.model()) == old(self)@.advance(*re, printer.color()),
    {
        proof {
            search::lemma_next_end(self.lines@, *re);
        }
        match search_reader(&mut self.lines, re) {
            SearchStep::Match(hit) => {
                let mut out: Vec<u8> = Vec::new();
                printer.print_match(
                    &mut out,
                    self.path.as_str(),
                    hit.line_no,
                    hit.text.as_str(),
                    self.max_columns,
                    re,
                );
                self.stage = FileStage::Writing;
                assert(out@ =~= printed(
                    self.path@,
                    self.max_columns as nat,
                    printer.color(),
                    *re,
                    hit.found(),
                ));
                FileAction::Write(out)
            },
            SearchStep::Pending => {
                self.stage = FileStage::Reading;
                FileAction::Fill
            },
            SearchStep::Done => {
                self.stage = FileStage::Finished;
                FileAction::Finish(Ok(()))
            },
            SearchStep::Failed(e) => {
                self.stage = FileStage::Finished;
                FileAction::Finish(self.unreadable(FileAccess::Read, e))
            },
        }
    }
}

/// Takes in what has happened in the search of a file, and returns what is to be
/// done next.
pub fn search_file(
    search: &mut FileSearch,
    event: FileEvent,
    re: &Matcher,
    printer: &Printer,
) -> (action: FileAction)
    requires
        old(search).wf(),
        old(search)@.expects(event),
    ensures
        final(search).wf(),
        (final(search)@, action.model()) == old(search)@.after(event, *re, printer.color()),
{
    match event {
        FileEvent::Start => {
            search.stage = FileStage::Opening;
            FileAction::Open
        },
        FileEvent::Opened(Ok(_)) => {
            search.stage = FileStage::Sniffing;
            FileAction::Fill
        },
        FileEvent::Opened(Err(e)) => {
            search.stage = FileStage::Finished;
            FileAction::Finish(search.unreadable(FileAccess::Open, e))
        },
        FileEvent::Filled(Ok(bytes)) => {
            if search.stage == FileStage::Sniffing && looks_binary(bytes.as_slice()) {
                search.stage = FileStage::Finished;
                return FileAction::Finish(Ok(()));
            }
            if search.stage == FileStage::Sniffing && bytes.len() == 0 {
                search.stage = FileStage::Reading;
                return FileAction::Fill;
            }
            search.lines.fill(bytes.as_slice());
            search.advance(re, printer)
        },
        FileEvent::Filled(Err(e)) => {
            if search.stage == FileStage::Sniffing {
                search.stage = FileStage::Finished;
                return FileAction::Finish(search.unreadable(FileAccess::Read, e));
            }
            search.lines.fail(e);
            search.advance(re, printer)
        },
        FileEvent::Wrote(Ok(_)) => search.advance(re, printer),
        FileEvent::Wrote(Err(e)) => {
            search.stage = FileStage::Finished;
            FileAction::Finish(Err(SearchError::Write(e)))
        },
    }
}

impl FileModel {
    /// All that is written from here on, and the result, where `next` is to be
    /// done next, `reads` are still to come, and all writes succeed.
    pub open spec fn run(
        self,
        next: FileDo,
        reads: Seq<Result<Seq<u8>, IoError>>,
        re: Matcher,
        color: bool,
    ) -> (Seq<Seq<u8>>, Result<(), SearchError>)
        decreases
            reads.len(),
            self.scan.lines_left(),
            match next {
                FileDo::Write(_) => 3nat,
                FileDo::Fill => if self.stage == FileStage::Sniffing {
                    2nat
                } else {
                    1nat
                },
                _ => 0nat,
            },
    {
        proof {
            search::lemma_next_end(self.scan, re);
            search::lemma_next_end(self.scan.filled(Seq::empty()), re);
        }
        match next {
            FileDo::Write(bytes) => {
                let (m, then_do) = self.wrote(Ok(()), re, color);
                let (later, r) = m.run(then_do, reads, re, color);
                (seq![bytes] + later, r)
            },
            FileDo::Fill => {
                let (m, then_do) = self.filled(search::next_read(reads), re, color);
                m.run(then_do, search::later_reads(reads), re, color)
            },
            FileDo::Finish(r) => (Seq::empty(), r),
            FileDo::Open => (Seq::empty(), Ok(())),
        }
    }

    /// The result of a search that could read its file, or not to its end.
    pub open spec fn result(self, failed: Option<IoError>) -> Result<(), SearchError> {
        match failed {
            Some(e) => self.unreadable(FileAccess::Read, e),
            None => Ok(()),
        }
    }
}

/// What is printed for some lines that match.
pub open spec fn all_printed(
    path: Seq<char>,
    max_columns: nat,
    color: bool,
    re: Matcher,
    founds: Seq<Found>,
) -> Seq<Seq<u8>> {
    founds.map_values(|found: Found| printed(path, max_columns, color, re, found))
}

proof fn lemma_all_printed_first(
    path: Seq<char>,
    max_columns: nat,
    color: bool,
    re: Matcher,
    found: Found,
    rest: Seq<Found>,
)
    ensures
        all_printed(path, max_columns, color, re, seq![found] + rest) == seq![
            printed(path, max_columns, color, re, found),
        ] + all_printed(path, max_columns, color, re, rest),
{
    assert(all_printed(path, max_columns, color, re, seq![found] + rest) =~= seq![
        printed(path, max_columns, color, re, found),
    ] + all_printed(path, max_columns, color, re, rest));
}

proof fn lemma_run(
    m: FileModel,
    reads: Seq<Result<Seq<u8>, IoError>>,
    re: Matcher,
    color: bool,
)
    requires
        lines::one_line(m.scan.line),
    ensures
        ({
            let (after, next) = m.advance(re, color);
            after.run(next, reads, re, color) == (
                all_printed(m.path@, m.max_columns, color, re, m.scan.to_find(reads, re)),
                m.result(m.scan.to_come(reads).1),
            )
        }),
    decreases
            reads.len(),
            m.scan.lines_left(),
            if m.scan.end is Open {
                2nat
            } else {
                0nat
            },
{
    let (after, next) = m.advance(re, color);
    let (outcome, scan) = m.scan.next(re);
    search::lemma_next(m.scan, reads, re);
    search::lemma_next_end(m.scan, re);
    match outcome {
        Outcome::Match(found) => {
            lemma_run(after, reads, re, color);
            lemma_all_printed_first(
                m.path@,
                m.max_columns,
                color,
                re,
                found,
                scan.to_find(reads, re),
            );
        },
        Outcome::Pending => {
            lemma_run_reading(after, reads, re, color);
        },
        _ => {
            assert(all_printed(m.path@, m.max_columns, color, re, Seq::empty()) =~= Seq::<
                Seq<u8>,
            >::empty());
        },
    }
}

proof fn lemma_run_reading(
    m: FileModel,
    reads: Seq<Result<Seq<u8>, IoError>>,
    re: Matcher,
    color: bool,
)
    requires
        lines::one_line(m.scan.line),
        m.scan.end is Open,
        m.stage == FileStage::Reading,
    ensures
        m.run(FileDo::Fill, reads, re, color) == (
            all_printed(m.path@, m.max_columns, color, re, m.scan.to_find(reads, re)),
            m.result(m.scan.to_come(reads).1),
        ),
    decreases reads.len(), m.scan.lines_left(), 1nat,
{
    let read = search::next_read(reads);
    let full = FileModel { scan: m.scan.read(read), ..m };
    search::lemma_read(m.scan, reads, re);
    assert(m.filled(read, re, color) == full.advance(re, color));
    lemma_run(full, search::later_reads(reads), re, color);
}

/// The reads that are searched, after the first one has been looked at.
pub open spec fn searched_reads(reads: Seq<Result<Seq<u8>, IoError>>) -> Seq<
    Result<Seq<u8>, IoError>,
> {
    match search::next_read(reads) {
        Ok(head) if head.len() == 0 => search::later_reads(reads),
        _ => reads,
    }
}

/// However a file is cut into reads, the search of it prints exactly the lines
/// that match, in order and under their numbers. Where a read fails, these are
/// the whole lines before the failure, and the failure is the result. Nothing at
/// all is printed where the first read fails or shows that the file is binary.
pub proof fn law_file_prints_its_matching_lines(
    m: FileModel,
    reads: Seq<Result<Seq<u8>, IoError>>,
    re: Matcher,
    color: bool,
)
    requires
        m.scan == search::fresh(),
        m.stage == FileStage::Sniffing,
    ensures
        m.run(FileDo::Fill, reads, re, color) == match search::next_read(reads) {
            Err(e) => (Seq::empty(), m.result(Some(e))),
            Ok(head) => if is_binary(head) {
                (Seq::empty(), Ok(()))
            } else {
                let body = searched_reads(reads);
                let failed = search::failure(false, body);
                let bytes = search::searched(search::arrived(false, body), failed is Some);
                (
                    all_printed(
                        m.path@,
                        m.max_columns,
                        color,
                        re,
                        search::matching_lines(lines::lines(bytes), 0, re),
                    ),
                    m.result(failed),
                )
            },
        },
{
    reveal_with_fuel(FileModel::run, 2);
    match search::next_read(reads) {
        Ok(head) if !is_binary(head) => {
            let later = search::later_reads(reads);
            let body = searched_reads(reads);
            if head.len() == 0 {
                lemma_run_reading(FileModel { stage: FileStage::Reading, ..m }, later, re, color);
            } else {
                search::lemma_read(m.scan, reads, re);
                lemma_run(FileModel { scan: m.scan.filled(head), ..m }, later, re, color);
            }
            assert(m.scan.ahead(search::arrived(false, body)) =~= search::arrived(false, body));
        },
        _ => {},
    }
}

} // verus!
