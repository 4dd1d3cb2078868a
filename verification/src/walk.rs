//! The search of many files: which of them are searched, and what a failure in
//! one of them means for the others.
use crate::fault;
use crate::fault::{write_stop, Fatal, IoError, IoErrorKind, ReadFailure, SearchError, Stop};
use vstd::prelude::*;
use vstd::string::*;

verus! {

/// What is known of a file or directory below the path that is searched.
#[derive(Debug)]
pub struct EntryInfo {
    /// How far below the path it is: 0 for the path itself.
    pub depth: usize,
    /// Whether it is a regular file, where that is known.
    pub is_file: Option<bool>,
    /// Its size in bytes, where that is known.
    pub len: Option<u64>,
}

impl EntryInfo {
    /// Whether to search an entry: only regular files, and only those that are
    /// not known to be over the limit. The limit 0 stands for none.
    pub open spec fn searchable(&self, max_filesize: u64) -> bool {
        &&& self.is_file == Some(true)
        &&& !(max_filesize > 0 && self.len is Some && self.len->0 > max_filesize)
    }
}

pub fn should_search(entry: &EntryInfo, max_filesize: u64) -> (b: bool)
    ensures
        b == entry.searchable(max_filesize),
        b ==> entry.is_file == Some(true),
        entry.is_file == Some(true) ==> b == (max_filesize == 0 || entry.len is None
            || entry.len->0 <= max_filesize),
{
    match entry.is_file {
        Some(true) => {},
        _ => {
            return false;
        },
    }
    if max_filesize > 0 {
        if let Some(len) = entry.len {
            if len > max_filesize {
                return false;
            }
        }
    }
    true
}

/// What to do about an entry.
#[derive(Debug)]
pub enum EntryAction {
    Skip,
    /// Nothing is known of the entry. That is reported.
    Warn(String),
    Search { is_root: bool },
}

/// What to do about an entry, or about a failure to find the next one.
pub open spec fn entry_action(entry: Result<EntryInfo, String>, max_filesize: u64) -> EntryAction {
    match entry {
        Err(message) => EntryAction::Warn(message),
        Ok(info) => if info.searchable(max_filesize) {
            EntryAction::Search { is_root: info.depth == 0 }
        } else {
            EntryAction::Skip
        },
    }
}

pub fn take_entry(entry: Result<EntryInfo, String>, max_filesize: u64) -> (action: EntryAction)
    ensures
        action == entry_action(entry, max_filesize),
        match entry {
            Err(message) => action == EntryAction::Warn(message),
            Ok(info) => if info.is_file == Some(true) && (max_filesize == 0 || info.len is None
                || info.len->0 <= max_filesize) {
                action == EntryAction::Search { is_root: info.depth == 0 }
            } else {
                action is Skip
            },
        },
{
    match entry {
        Err(message) => EntryAction::Warn(message),
        Ok(info) => if should_search(&info, max_filesize) {
            EntryAction::Search { is_root: info.depth == 0 }
        } else {
            EntryAction::Skip
        },
    }
}

/// Something that went wrong and does not stop the search.
#[derive(Debug)]
pub enum Warning {
    /// Nothing is known of an entry.
    Entry(String),
    /// A file could not be searched, or not to its end.
    File(ReadFailure),
}

impl Warning {
    pub open spec fn text_model(&self) -> Seq<char> {
        "warning: "@ + match self {
            Warning::Entry(message) => message@,
            Warning::File(failure) => failure.context_text() + ": "@ + failure.cause.message@,
        }
    }

    /// The warning in one line.
    pub fn text(&self) -> (text: String)
        ensures
            text@ == self.text_model(),
    {
        let mut text = "warning: ".to_owned();
        match self {
            Warning::Entry(message) => {
                text.append(message.as_str());
            },
            Warning::File(failure) => {
                text.append(failure.context().as_str());
                text.append(": ");
                text.append(failure.cause.message.as_str());
            },
        }
        assert(text@ =~= self.text_model());
        text
    }
}

/// What the search of one file means for the search as a whole: nothing, or that
/// it is broken off.
pub open spec fn stop_after_file(r: Result<(), SearchError>, is_root: bool) -> Option<Stop> {
    match r {
        Ok(_) => None,
        Err(SearchError::Read(failure)) => if is_root {
            Some(Stop::Fatal(Fatal::ReadRoot(failure)))
        } else {
            None
        },
        Err(SearchError::Write(e)) => Some(fault::stop_after_write(e)),
    }
}

/// What is reported after the search of one file that does not end the search as
/// a whole.
pub open spec fn warning_after_file(r: Result<(), SearchError>) -> Option<Warning> {
    match r {
        Err(SearchError::Read(failure)) => Some(Warning::File(failure)),
        _ => None,
    }
}

/// What a search of one file after the other waits for.
#[derive(Debug, Clone, Copy, PartialEq, Eq, Structural)]
pub enum WalkStage {
    /// The next entry.
    Walking,
    /// The search of a file, of the searched path itself or of one below it.
    Searching { is_root: bool },
    /// Nothing: the search has ended.
    Finished,
}

/// What has happened.
#[derive(Debug)]
pub enum WalkEvent {
    Entry(Result<EntryInfo, String>),
    /// There are no more entries.
    End,
    /// The entry has been searched.
    Searched(Result<(), SearchError>),
}

/// What is to be done next.
#[derive(Debug)]
pub enum WalkAction {
    /// Go to the next entry, after a warning where there is one.
    Next(Option<Warning>),
    /// Search the entry.
    Search,
    Finish(Result<(), Fatal>),
}

/// A search of one file after the other.
pub struct SequentialWalk {
    pub max_filesize: u64,
    pub stage: WalkStage,
}

impl SequentialWalk {
    pub open spec fn expects(&self, event: WalkEvent) -> bool {
        match event {
            WalkEvent::Searched(_) => self.stage is Searching,
            _ => self.stage is Walking,
        }
    }

    /// The search after an event, and what is to be done then.
    pub open spec fn after(self, event: WalkEvent) -> (SequentialWalk, WalkAction) {
        let walking = SequentialWalk { stage: WalkStage::Walking, ..self };
        let finished = SequentialWalk { stage: WalkStage::Finished, ..self };
        match event {
            WalkEvent::End => (finished, WalkAction::Finish(Ok(()))),
            WalkEvent::Entry(entry) => match entry_action(entry, self.max_filesize) {
                EntryAction::Skip => (walking, WalkAction::Next(None)),
                EntryAction::Warn(message) => (
                    walking,
                    WalkAction::Next(Some(Warning::Entry(message))),
                ),
                EntryAction::Search { is_root } => (
                    SequentialWalk { stage: WalkStage::Searching { is_root }, ..self },
                    WalkAction::Search,
                ),
            },
            WalkEvent::Searched(r) => match stop_after_file(r, self.stage->is_root) {
                None => (walking, WalkAction::Next(warning_after_file(r))),
                Some(Stop::BrokenPipe) => (finished, WalkAction::Finish(Ok(()))),
                Some(Stop::Fatal(fatal)) => (finished, WalkAction::Finish(Err(fatal))),
            },
        }
    }

    pub fn new(max_filesize: u64) -> (walk: SequentialWalk)
        ensures
            walk == (SequentialWalk { max_filesize, stage: WalkStage::Walking }),
    {
        SequentialWalk { max_filesize, stage: WalkStage::Walking }
    }
}

/// Takes in what has happened in a search of one file after the other, and
/// returns what is to be done next.
pub fn search_sequential(walk: &mut SequentialWalk, event: WalkEvent) -> (action: WalkAction)
    requires
        old(walk).expects(event),
    ensures
        (*final(walk), action) == old(walk).after(event),
{
    match event {
        WalkEvent::End => {
            walk.stage = WalkStage::Finished;
            WalkAction::Finish(Ok(()))
        },
        WalkEvent::Entry(entry) => match take_entry(entry, walk.max_filesize) {
            EntryAction::Skip => {
                walk.stage = WalkStage::Walking;
                WalkAction::Next(None)
            },
            EntryAction::Warn(message) => {
                walk.stage = WalkStage::Walking;
                WalkAction::Next(Some(Warning::Entry(message)))
            },
            EntryAction::Search { is_root } => {
                walk.stage = WalkStage::Searching { is_root };
                WalkAction::Search
            },
        },
        WalkEvent::Searched(r) => {
            let is_root = match walk.stage {
                WalkStage::Searching { is_root } => is_root,
                _ => false,
            };
            walk.stage = WalkStage::Walking;
            match r {
                Ok(_) => WalkAction::Next(None),
                Err(SearchError::Read(failure)) => if is_root {
                    walk.stage = WalkStage::Finished;
                    WalkAction::Finish(Err(Fatal::ReadRoot(failure)))
                } else {
                    WalkAction::Next(Some(Warning::File(failure)))
                },
                Err(SearchError::Write(e)) => {
                    walk.stage = WalkStage::Finished;
                    if e.kind == IoErrorKind::BrokenPipe {
                        WalkAction::Finish(Ok(()))
                    } else {
                        WalkAction::Finish(Err(Fatal::Write(e)))
                    }
                },
            }
        },
    }
}

/// What one of several searches at the same time waits for.
#[derive(Debug)]
pub enum OneStage {
    /// The search of its file.
    Searching,
    /// The rest of its output to be written, after a search that may have failed.
    Flushing(Option<ReadFailure>),
    /// Nothing: the search has ended.
    Finished,
}

/// What has happened.
#[derive(Debug)]
pub enum OneEvent {
    Searched(Result<(), SearchError>),
    Flushed(Result<(), IoError>),
}

/// What is to be done next.
#[derive(Debug)]
pub enum OneAction {
    /// Write the rest of the output.
    Flush,
    /// End, after a warning where there is one, and break the other searches off
    /// where there is a reason to.
    Finish { warning: Option<Warning>, result: Result<(), Stop> },
}

/// One of several searches at the same time.
pub struct OneSearch {
    pub is_root: bool,
    pub stage: OneStage,
}

impl OneSearch {
    pub open spec fn expects(&self, event: OneEvent) -> bool {
        match event {
            OneEvent::Searched(_) => self.stage is Searching,
            OneEvent::Flushed(_) => self.stage is Flushing,
        }
    }

    /// The search after an event, and what is to be done then. Whatever came of
    /// the search, the matches that were found before are written, unless the
    /// output cannot be written any more.
    pub open spec fn after(self, event: OneEvent) -> (OneSearch, OneAction) {
        let finished = OneSearch { stage: OneStage::Finished, ..self };
        match event {
            OneEvent::Searched(Ok(_)) => (
                OneSearch { stage: OneStage::Flushing(None), ..self },
                OneAction::Flush,
            ),
            OneEvent::Searched(Err(SearchError::Read(failure))) => (
                OneSearch { stage: OneStage::Flushing(Some(failure)), ..self },
                OneAction::Flush,
            ),
            OneEvent::Searched(Err(SearchError::Write(e))) | OneEvent::Flushed(Err(e)) => (
                finished,
                OneAction::Finish { warning: None, result: Err(fault::stop_after_write(e)) },
            ),
            OneEvent::Flushed(Ok(_)) => (
                finished,
                match self.stage->Flushing_0 {
                    None => OneAction::Finish { warning: None, result: Ok(()) },
                    Some(failure) => if self.is_root {
                        OneAction::Finish {
                            warning: None,
                            result: Err(Stop::Fatal(Fatal::ReadRoot(failure))),
                        }
                    } else {
                        OneAction::Finish {
                            warning: Some(Warning::File(failure)),
                            result: Ok(()),
                        }
                    },
                },
            ),
        }
    }

    pub fn new(is_root: bool) -> (one: OneSearch)
        ensures
            one == (OneSearch { is_root, stage: OneStage::Searching }),
    {
        OneSearch { is_root, stage: OneStage::Searching }
    }
}

/// Takes in what has happened in one of several searches at the same time, and
/// returns what is to be done next.
pub fn search_one(one: &mut OneSearch, event: OneEvent) -> (action: OneAction)
    requires
        old(one).expects(event),
    ensures
        (*final(one), action) == old(one).after(event),
{
    let mut stage = OneStage::Finished;
    core::mem::swap(&mut stage, &mut one.stage);
    match event {
        OneEvent::Searched(Ok(_)) => {
            one.stage = OneStage::Flushing(None);
            OneAction::Flush
        },
        OneEvent::Searched(Err(SearchError::Read(failure))) => {
            one.stage = OneStage::Flushing(Some(failure));
            OneAction::Flush
        },
        OneEvent::Searched(Err(SearchError::Write(e))) => OneAction::Finish {
            warning: None,
            result: Err(write_stop(e)),
        },
        OneEvent::Flushed(Err(e)) => OneAction::Finish {
            warning: None,
            result: Err(write_stop(e)),
        },
        OneEvent::Flushed(Ok(_)) => match stage {
            OneStage::Flushing(Some(failure)) => if one.is_root {
                OneAction::Finish {
                    warning: None,
                    result: Err(Stop::Fatal(Fatal::ReadRoot(failure))),
                }
            } else {
                OneAction::Finish { warning: Some(Warning::File(failure)), result: Ok(()) }
            },
            _ => OneAction::Finish { warning: None, result: Ok(()) },
        },
    }
}

} // verus!
