//! The reading side of a search: bytes that arrive chunk by chunk and leave line
//! by line.
use crate::fault::{IoError, IoErrorKind};
use crate::lines;
use crate::lines::{find_newline, NEWLINE};
use vstd::prelude::*;
use vstd::slice::*;

verus! {

/// What comes after the bytes that have arrived.
#[derive(Debug)]
pub enum InputEnd {
    /// Not known yet: more has to be read.
    Open,
    /// A read that returned nothing. It ends the line before it, or the input
    /// where no line has been begun. As a file may grow, another read may return
    /// more.
    Eof,
    /// A read that failed.
    Failed(IoError),
}

/// Why no line could be read.
#[derive(Debug)]
pub enum ReadError {
    /// The line is not complete yet: more input is needed first.
    Pending,
    /// The input cannot be read any further.
    Failed(IoError),
}

/// An input of which some part has arrived.
///
/// A line whose end has not arrived yet is taken out of the input piece by
/// piece, so that of a long line no more is kept than its reader asks for.
pub struct Input {
    chunk: Vec<u8>,
    pos: usize,
    end: InputEnd,
    started: bool,
    oversized: bool,
    line: Ghost<Seq<u8>>,
}

impl Input {
    /// The bytes that have arrived and have not been read.
    pub closed spec fn unread(&self) -> Seq<u8> {
        self.chunk@.skip(self.pos as int)
    }

    /// What comes after them.
    pub closed spec fn end(&self) -> InputEnd {
        self.end
    }

    /// What has been read of the line that is being read.
    pub closed spec fn line(&self) -> Seq<u8> {
        self.line@
    }

    pub closed spec fn wf(&self) -> bool {
        &&& self.pos <= self.chunk@.len()
        &&& self.started == (self.line@.len() > 0)
        &&& !self.started ==> !self.oversized
        &&& lines::one_line(self.line@)
    }

    /// Whether `buf` holds what a reader with a limit of `cap` bytes has kept of
    /// the line that is being read.
    pub closed spec fn resumes(&self, buf: Seq<u8>, cap: int) -> bool {
        self.started ==> {
            &&& self.oversized == (self.line@.len() > cap)
            &&& kept(self.line@, buf, cap)
        }
    }

    /// Between two lines any buffer will do.
    pub proof fn lemma_fresh(&self, buf: Seq<u8>, cap: int)
        requires
            self.wf(),
            self.line() == Seq::<u8>::empty(),
        ensures
            self.resumes(buf, cap),
    {
    }

    /// What has arrived fits into memory.
    pub proof fn lemma_size(&self)
        ensures
            self.wf() ==> self.unread().len() <= usize::MAX,
    {
        assert(self.chunk.len() == self.chunk@.len());
    }

    /// What has been read of a line holds no newline.
    pub proof fn lemma_line(&self)
        requires
            self.wf(),
        ensures
            lines::one_line(self.line()),
    {
    }

    /// An input of which nothing has arrived.
    pub fn new() -> (input: Input)
        ensures
            input.wf(),
            input.unread() == Seq::<u8>::empty(),
            input.line() == Seq::<u8>::empty(),
            input.end() == InputEnd::Open,
    {
        let input = Input {
            chunk: Vec::new(),
            pos: 0,
            end: InputEnd::Open,
            started: false,
            oversized: false,
            line: Ghost(Seq::empty()),
        };
        assert(input.unread() =~= Seq::<u8>::empty());
        input
    }

    /// How many bytes have arrived and have not been read.
    pub fn unread_len(&self) -> (n: usize)
        requires
            self.wf(),
        ensures
            n == self.unread().len(),
    {
        self.chunk.len() - self.pos
    }

    /// Whether a line has been read in part.
    pub fn mid_line(&self) -> (b: bool)
        requires
            self.wf(),
        ensures
            b == (self.line().len() > 0),
    {
        self.started
    }

    /// Takes in what a read has returned: the next bytes, or nothing.
    pub fn fill(&mut self, bytes: &[u8])
        requires
            old(self).wf(),
            old(self).end() is Open,
        ensures
            final(self).wf(),
            final(self).unread() == old(self).unread() + bytes@,
            final(self).line() == old(self).line(),
            final(self).end() == if bytes@.len() == 0 {
                InputEnd::Eof
            } else {
                InputEnd::Open
            },
            forall|buf: Seq<u8>, cap: int|
                old(self).resumes(buf, cap) ==> #[trigger] final(self).resumes(buf, cap),
    {
        let ghost before = self.unread();
        if bytes.len() == 0 {
            self.end = InputEnd::Eof;
        } else {
            let mut chunk = self.chunk.split_off(self.pos);
            assert(chunk@ =~= before);
            chunk.extend_from_slice(bytes);
            self.chunk = chunk;
            self.pos = 0;
        }
        assert(self.unread() =~= before + bytes@);
    }

    /// Takes in that a read has failed. One that was interrupted is to be tried
    /// again.
    pub fn fail(&mut self, e: IoError)
        requires
            old(self).wf(),
            old(self).end() is Open,
        ensures
            final(self).wf(),
            final(self).unread() == old(self).unread(),
            final(self).line() == old(self).line(),
            final(self).end() == if e.kind == IoErrorKind::Interrupted {
                InputEnd::Open
            } else {
                InputEnd::Failed(e)
            },
            forall|buf: Seq<u8>, cap: int|
                old(self).resumes(buf, cap) ==> #[trigger] final(self).resumes(buf, cap),
    {
        if e.kind != IoErrorKind::Interrupted {
            self.end = InputEnd::Failed(e);
        }
    }
}

/// What is kept of a line: the whole line where it is no longer than `cap`
/// bytes, and otherwise some beginning of it that is no longer.
pub open spec fn kept(line: Seq<u8>, buf: Seq<u8>, cap: int) -> bool {
    if line.len() <= cap {
        buf == line
    } else {
        buf.len() <= cap && buf.is_prefix_of(line)
    }
}

/// Reads the next line into `buf`, up to `cap` bytes of it.
///
/// - `Ok(None)`: there is no further line: a read between two lines has returned
///   nothing.
/// - `Ok(Some(false))`: a line, which `buf` holds without the newline. The
///   carriage return of a line that ends in CR LF stays.
/// - `Ok(Some(true))`: a line of more than `cap` bytes, of which `buf` holds
///   only a part. With a `cap` of 0 that is every line but an empty one.
pub fn read_capped_line(reader: &mut Input, buf: &mut Vec<u8>, cap: usize) -> (r: Result<
    Option<bool>,
    ReadError,
>)
    requires
        old(reader).wf(),
        old(reader).resumes(old(buf)@, cap as int),
    ensures
        final(reader).wf(),
        ({
            let unread = old(reader).unread();
            let i = lines::first_newline(unread);
            let line = old(reader).line() + unread.take(i);
            if i < unread.len() || old(reader).end() is Eof && line.len() > 0 {
                &&& r == Ok::<Option<bool>, ReadError>(Some(line.len() > cap))
                &&& kept(line, final(buf)@, cap as int)
                &&& final(reader).line() == Seq::<u8>::empty()
                &&& final(reader).unread() == if i < unread.len() {
                    unread.skip(i + 1)
                } else {
                    Seq::empty()
                }
                &&& final(reader).end() == if i < unread.len() {
                    old(reader).end()
                } else {
                    InputEnd::Open
                }
            } else {
                &&& final(reader).unread() == Seq::<u8>::empty()
                &&& match old(reader).end() {
                    InputEnd::Eof => {
                        &&& r == Ok::<Option<bool>, ReadError>(None)
                        &&& final(buf)@ == Seq::<u8>::empty()
                        &&& final(reader).line() == Seq::<u8>::empty()
                        &&& final(reader).end() is Open
                    },
                    InputEnd::Open => {
                        &&& r == Err::<Option<bool>, ReadError>(ReadError::Pending)
                        &&& final(reader).line() == line
                        &&& kept(line, final(buf)@, cap as int)
                        &&& final(reader).end() is Open
                        &&& final(reader).resumes(final(buf)@, cap as int)
                    },
                    InputEnd::Failed(e) => {
                        &&& r == Err::<Option<bool>, ReadError>(ReadError::Failed(e))
                        &&& kept(line, final(buf)@, cap as int)
                        &&& final(reader).line() == Seq::<u8>::empty()
                        &&& final(reader).end() is Open
                    },
                }
            }
        }),
        ({
            let all = old(reader).line() + old(reader).unread();
            let n = all.len() - final(reader).unread().len();
            let line = if all[n - 1] == 0x0a {
                all.take(n - 1)
            } else {
                all.take(n)
            };
            match r {
                Ok(Some(oversized)) => {
                    &&& n > 0
                    &&& final(reader).unread() == all.skip(n)
                    &&& !line.contains(0x0a)
                    &&& all[n - 1] == 0x0a || old(reader).end() is Eof && n == all.len()
                    &&& oversized == (line.len() > cap)
                    &&& !oversized ==> final(buf)@ == line
                },
                Ok(None) => all.len() == 0 && old(reader).end() is Eof,
                Err(ReadError::Pending) => {
                    &&& old(reader).end() is Open
                    &&& !all.contains(0x0a)
                    &&& final(reader).line() == all
                },
                Err(ReadError::Failed(e)) => {
                    &&& old(reader).end() == InputEnd::Failed(e)
                    &&& !all.contains(0x0a)
                },
            }
        }),
{
    let ghost unread = reader.unread();
    let ghost before = reader.line@;
    if !reader.started {
        buf.clear();
    }
    let stop = find_newline(reader.chunk.as_slice(), reader.pos);
    let found = stop < reader.chunk.len();
    let ghost line = before + unread.take(stop - reader.pos);
    proof {
        lines::lemma_first_newline(unread);
    }
    let taken: usize = stop - reader.pos;
    let ghost all = before + unread;
    assert forall|j: int| 0 <= j < line.len() implies #[trigger] line[j] != 0x0a && line[j]
        == all[j] by {
        if j < before.len() {
            assert(before[j] != NEWLINE);
        } else {
            assert(unread[j - before.len()] != NEWLINE);
        }
    }
    if !reader.oversized && taken <= cap - buf.len() {
        let piece = slice_subrange(reader.chunk.as_slice(), reader.pos, stop);
        assert(piece@ =~= unread.take(stop - reader.pos));
        buf.extend_from_slice(piece);
        assert(buf@ =~= line);
    } else {
        reader.oversized = true;
    }
    reader.started = reader.started || taken > 0;
    let oversized = reader.oversized;
    assert(kept(line, buf@, cap as int));
    if found {
        reader.pos = stop + 1;
        reader.started = false;
        reader.oversized = false;
        reader.line = Ghost(Seq::empty());
        assert(reader.unread() =~= unread.skip(stop - old(reader).pos + 1));
        assert(all[line.len() as int] == 0x0a);
        assert(all.take(line.len() as int) =~= line);
        assert(reader.unread() =~= all.skip(line.len() + 1int));
        return Ok(Some(oversized));
    }
    assert(line =~= all);
    assert(all.take(all.len() as int) =~= all);
    assert(all.skip(all.len() as int) =~= Seq::<u8>::empty());
    reader.pos = stop;
    assert(reader.unread() =~= Seq::<u8>::empty());
    let mut end = InputEnd::Open;
    core::mem::swap(&mut end, &mut reader.end);
    match end {
        InputEnd::Open => {
            reader.line = Ghost(line);
            Err(ReadError::Pending)
        },
        InputEnd::Eof => {
            let started = reader.started;
            reader.started = false;
            reader.oversized = false;
            reader.line = Ghost(Seq::empty());
            if started {
                Ok(Some(oversized))
            } else {
                Ok(None)
            }
        },
        InputEnd::Failed(e) => {
            reader.started = false;
            reader.oversized = false;
            reader.line = Ghost(Seq::empty());
            Err(ReadError::Failed(e))
        },
    }
}

} // verus!
