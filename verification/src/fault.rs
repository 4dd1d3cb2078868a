//! Failed reads and writes, as the search sees them.
use crate::pattern::PatternError;
use crate::size::SizeError;
use vstd::prelude::*;
use vstd::string::*;

verus! {

/// The kinds of failure that are handled in a way of their own.
#[derive(Debug, Clone, Copy, PartialEq, Eq, Structural)]
pub enum IoErrorKind {
    /// The other end of the output has been closed.
    BrokenPipe,
    /// The operation was cut short and can be tried again.
    Interrupted,
    Other,
}

/// A failed read or write.
#[derive(Debug)]
pub struct IoError {
    pub kind: IoErrorKind,
    pub message: String,
}

/// What could not be done with a file.
#[derive(Debug, Clone, Copy, PartialEq, Eq, Structural)]
pub enum FileAccess {
    Open,
    Read,
}

/// A file that could not be searched, or not to its end.
#[derive(Debug)]
pub struct ReadFailure {
    pub access: FileAccess,
    pub path: String,
    pub cause: IoError,
}

impl ReadFailure {
    /// What could not be done, and with which file.
    pub open spec fn context_text(&self) -> Seq<char> {
        (match self.access {
            FileAccess::Open => "failed to open "@,
            FileAccess::Read => "failed to read "@,
        }) + self.path@
    }

    pub fn context(&self) -> (text: String)
        ensures
            text@ == self.context_text(),
    {
        let mut text = match self.access {
            FileAccess::Open => "failed to open ".to_owned(),
            FileAccess::Read => "failed to read ".to_owned(),
        };
        text.append(self.path.as_str());
        text
    }
}

/// Why the search of a file ended early.
///
/// A file that cannot be read is a problem of that file alone, and a search of
/// many files can go on. An output that cannot be written would stay incomplete.
#[derive(Debug)]
pub enum SearchError {
    Read(ReadFailure),
    Write(IoError),
}

/// Why a search as a whole has failed.
#[derive(Debug)]
pub enum Fatal {
    /// The pattern cannot be compiled.
    Pattern { pattern: String, error: PatternError },
    /// The limit on the size of files is not a size.
    Size(SizeError),
    /// The path to be searched does not exist, or nothing is known of it.
    Access { path: String, cause: IoError },
    /// The directory to be searched cannot be listed.
    List { path: String, cause: IoError },
    /// The file to be searched cannot be read.
    ReadRoot(ReadFailure),
    /// The output cannot be written.
    Write(IoError),
    /// The output cannot be completed.
    Flush(IoError),
    /// The threads for the search cannot be had.
    ThreadPool(String),
}

/// The characters of some texts.
pub open spec fn texts_of(texts: Seq<String>) -> Seq<Seq<char>> {
    texts.map_values(|text: String| text@)
}

impl Fatal {
    /// What went wrong and what caused it, the nearest cause last.
    pub open spec fn chain_texts(&self) -> Seq<Seq<char>> {
        match self {
            Fatal::Pattern { pattern, error } => seq![
                "invalid regex pattern: "@ + pattern@,
                error.message@,
            ],
            Fatal::Size(e) => match e {
                SizeError::Invalid { cause, .. } => seq![e.message_text(), cause@],
                _ => seq![e.message_text()],
            },
            Fatal::Access { path, cause } => seq!["cannot access path: "@ + path@, cause.message@],
            Fatal::List { path, cause } => seq!["cannot read directory: "@ + path@, cause.message@],
            Fatal::ReadRoot(failure) => seq![
                "failed to read requested path"@,
                failure.context_text(),
                failure.cause.message@,
            ],
            Fatal::Write(cause) => seq!["failed to write output"@, cause.message@],
            Fatal::Flush(cause) => seq!["failed to flush output"@, cause.message@],
            Fatal::ThreadPool(cause) => seq!["failed to build thread pool"@, cause@],
        }
    }

    pub fn chain(&self) -> (texts: Vec<String>)
        ensures
            texts_of(texts@) == self.chain_texts(),
    {
        let texts = match self {
            Fatal::Pattern { pattern, error } => vec![
                concat("invalid regex pattern: ", pattern.as_str()),
                error.message.clone(),
            ],
            Fatal::Size(e) => match e {
                SizeError::Invalid { cause, .. } => vec![e.message(), cause.clone()],
                _ => vec![e.message()],
            },
            Fatal::Access { path, cause } => vec![
                concat("cannot access path: ", path.as_str()),
                cause.message.clone(),
            ],
            Fatal::List { path, cause } => vec![
                concat("cannot read directory: ", path.as_str()),
                cause.message.clone(),
            ],
            Fatal::ReadRoot(failure) => vec![
                "failed to read requested path".to_owned(),
                failure.context(),
                failure.cause.message.clone(),
            ],
            Fatal::Write(cause) => vec![
                "failed to write output".to_owned(),
                cause.message.clone(),
            ],
            Fatal::Flush(cause) => vec![
                "failed to flush output".to_owned(),
                cause.message.clone(),
            ],
            Fatal::ThreadPool(cause) => vec![
                "failed to build thread pool".to_owned(),
                cause.clone(),
            ],
        };
        assert(texts_of(texts@) =~= self.chain_texts());
        texts
    }
}

/// One text after another.
fn concat(a: &str, b: &str) -> (text: String)
    ensures
        text@ == a@ + b@,
{
    let mut text = a.to_owned();
    text.append(b);
    text
}

/// Why a search is broken off.
#[derive(Debug)]
pub enum Stop {
    /// Nobody reads the output any more. That is not an error.
    BrokenPipe,
    Fatal(Fatal),
}

/// What a failed write means for the search as a whole.
pub open spec fn stop_after_write(e: IoError) -> Stop {
    if e.kind == IoErrorKind::BrokenPipe {
        Stop::BrokenPipe
    } else {
        Stop::Fatal(Fatal::Write(e))
    }
}

/// Breaks a search off after a failed write.
pub fn write_stop(e: IoError) -> (stop: Stop)
    ensures
        stop == stop_after_write(e),
{
    if e.kind == IoErrorKind::BrokenPipe {
        Stop::BrokenPipe
    } else {
        Stop::Fatal(Fatal::Write(e))
    }
}

/// Whether the output is complete after it has been flushed: an output that
/// nobody reads any more counts as complete.
pub fn flush_output(flushed: Result<(), IoError>) -> (r: Result<(), Fatal>)
    ensures
        r == flush_result(flushed),
{
    match flushed {
        Ok(_) => Ok(()),
        Err(e) => if e.kind == IoErrorKind::BrokenPipe {
            Ok(())
        } else {
            Err(Fatal::Flush(e))
        },
    }
}

pub open spec fn flush_result(flushed: Result<(), IoError>) -> Result<(), Fatal> {
    match flushed {
        Err(e) if e.kind != IoErrorKind::BrokenPipe => Err(Fatal::Flush(e)),
        _ => Ok(()),
    }
}

} // verus!
