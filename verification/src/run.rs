//! A search from its settings to its result.
use crate::fault;
use crate::fault::{flush_output, Fatal, IoError, Stop};
use crate::pattern;
use crate::pattern::{Matcher, PatternError};
use crate::size;
use crate::size::parse_size;
use vstd::prelude::*;

verus! {

/// When to print in color.
#[derive(Debug, Clone, Copy, PartialEq, Eq, Structural)]
pub enum ColorWhen {
    /// Where the output is a terminal that shows it.
    Auto,
    Always,
    Never,
}

/// What is asked for.
#[derive(Debug)]
pub struct Settings {
    pub pattern: String,
    pub path: String,
    pub ignore_case: bool,
    pub color: ColorWhen,
    /// How many characters of a line to print, 0 for all. Where nothing is asked
    /// for, it depends on the output.
    pub max_columns: Option<usize>,
    /// The size above which files are skipped, 0 for none.
    pub max_filesize: String,
    /// How many files to search at the same time, 0 for as many as the machine
    /// can.
    pub threads: usize,
}

/// What is known of the machine and of the output.
#[derive(Debug)]
pub struct Host {
    /// How many threads can run at the same time.
    pub parallelism: Option<usize>,
    /// Whether the output is a terminal.
    pub is_terminal: bool,
    /// The width of the terminal.
    pub width: Option<usize>,
    /// Whether the output shows colors.
    pub shows_color: bool,
}

/// How to search.
pub struct Plan {
    pub matcher: Matcher,
    pub max_filesize: u64,
    pub max_columns: usize,
    pub threads: usize,
    pub color: bool,
    /// Whether to collect output into blocks. A terminal shows each line at once.
    pub blocks: bool,
}

impl Settings {
    pub open spec fn wants_color(&self, host: Host) -> bool {
        match self.color {
            ColorWhen::Auto => host.shows_color,
            ColorWhen::Always => true,
            ColorWhen::Never => false,
        }
    }

    pub fn use_color(&self, host: &Host) -> (b: bool)
        ensures
            b == self.wants_color(*host),
            b == (self.color == ColorWhen::Always || self.color == ColorWhen::Auto
                && host.shows_color),
    {
        match self.color {
            ColorWhen::Auto => host.shows_color,
            ColorWhen::Always => true,
            ColorWhen::Never => false,
        }
    }

    pub open spec fn wanted_threads(&self, host: Host) -> usize {
        if self.threads > 0 {
            self.threads
        } else {
            match host.parallelism {
                Some(n) => n,
                None => 1,
            }
        }
    }

    /// How many files to search at the same time.
    pub fn thread_count(&self, host: &Host) -> (n: usize)
        ensures
            n == self.wanted_threads(*host),
            self.threads > 0 ==> n == self.threads,
            self.threads == 0 ==> n == if host.parallelism is Some {
                host.parallelism->0
            } else {
                1
            },
    {
        match self.threads {
            0 => match host.parallelism {
                Some(n) => n,
                None => 1,
            },
            n => n,
        }
    }

    pub open spec fn wanted_columns(&self, host: Host) -> usize {
        match (self.max_columns, host.width) {
            (Some(n), _) => n,
            (None, Some(width)) if host.is_terminal => width,
            _ => 0,
        }
    }

    /// How many characters of a line to print, 0 for all: without a limit of its
    /// own, a line is cut to the width of the terminal, and never where the output
    /// goes to another program.
    pub fn column_limit(&self, host: &Host) -> (n: usize)
        ensures
            n == self.wanted_columns(*host),
            self.max_columns is Some ==> n == self.max_columns->0,
            self.max_columns is None ==> n == if host.is_terminal && host.width is Some {
                host.width->0
            } else {
                0
            },
    {
        match self.max_columns {
            Some(n) => n,
            None => if host.is_terminal {
                match host.width {
                    Some(width) => width,
                    None => 0,
                }
            } else {
                0
            },
        }
    }

    /// How to search with a given pattern and size limit.
    pub open spec fn planned(&self, host: Host, matcher: Matcher, max_filesize: u64) -> Plan {
        Plan {
            matcher,
            max_filesize,
            max_columns: self.wanted_columns(host),
            threads: self.wanted_threads(host),
            color: self.wants_color(host),
            blocks: !host.is_terminal,
        }
    }
}

/// Makes a plan out of the settings, once the pattern has been compiled. Where
/// both the pattern and the size are wrong, the pattern is reported.
pub fn plan(built: Result<Matcher, PatternError>, settings: &Settings, host: &Host) -> (r: Result<
    Plan,
    Fatal,
>)
    ensures
        match built {
            Err(error) => r == Err::<Plan, Fatal>(
                Fatal::Pattern { pattern: settings.pattern, error },
            ),
            Ok(matcher) => match r {
                Ok(plan) => {
                    &&& size::size_bytes(settings.max_filesize@) == Some(plan.max_filesize as nat)
                    &&& plan == settings.planned(*host, matcher, plan.max_filesize)
                },
                Err(Fatal::Size(e)) => size::refused(settings.max_filesize@, e),
                Err(_) => false,
            },
        },
{
    match built {
        Err(error) => Err(Fatal::Pattern { pattern: settings.pattern.clone(), error }),
        Ok(matcher) => match parse_size(settings.max_filesize.as_str()) {
            Err(e) => Err(Fatal::Size(e)),
            Ok(max_filesize) => Ok(
                Plan {
                    matcher,
                    max_filesize,
                    max_columns: settings.column_limit(host),
                    threads: settings.thread_count(host),
                    color: settings.use_color(host),
                    blocks: !host.is_terminal,
                },
            ),
        },
    }
}

/// Compiles the pattern and makes a plan out of the settings.
pub fn prepare(settings: &Settings, host: &Host) -> (r: Result<Plan, Fatal>)
    ensures
        pattern::regex_syntax_error(settings.pattern@, settings.ignore_case) is Some ==> r
            is Err && r->Err_0 is Pattern,
        match r {
            Ok(plan) => {
                &&& plan.matcher.pattern() == settings.pattern@
                &&& plan.matcher.ignore_case() == settings.ignore_case
                &&& size::size_bytes(settings.max_filesize@) == Some(plan.max_filesize as nat)
                &&& plan == settings.planned(*host, plan.matcher, plan.max_filesize)
            },
            Err(Fatal::Pattern { pattern, error }) => {
                &&& pattern == settings.pattern
                &&& pattern::refused(settings.pattern@, settings.ignore_case, error)
            },
            Err(Fatal::Size(e)) => size::refused(settings.max_filesize@, e),
            Err(_) => false,
        },
{
    plan(Matcher::new(settings.pattern.as_str(), settings.ignore_case), settings, host)
}

/// What a run waits for.
#[derive(Debug)]
pub enum RunStage {
    /// To be started.
    Ready,
    /// What is known of the path.
    Checking,
    /// The directory to be listed.
    Listing,
    /// The search of one file after the other.
    SearchingInTurn,
    /// The threads to be started.
    Pooling,
    /// The search of several files at the same time.
    SearchingAtOnce,
    /// The output to be flushed, after a search with this outcome.
    Flushing(Result<(), Stop>),
    /// Nothing: the run has ended.
    Finished,
}

/// What has happened.
#[derive(Debug)]
pub enum RunEvent {
    Start,
    /// The path is or is not a directory, or nothing is known of it.
    Checked(Result<bool, IoError>),
    Listed(Result<(), IoError>),
    SearchedInTurn(Result<(), Fatal>),
    Pooled(Result<(), String>),
    SearchedAtOnce(Result<(), Stop>),
    Flushed(Result<(), IoError>),
}

/// What is to be done next.
#[derive(Debug)]
pub enum RunAction {
    /// Find out about the path.
    Check,
    /// List the directory.
    List,
    /// Search one file after the other.
    SearchInTurn,
    /// Start the threads.
    Pool,
    /// Search several files at the same time.
    SearchAtOnce,
    /// Flush the output.
    Flush,
    Finish(Result<(), Fatal>),
}

/// A run over a path.
pub struct Run {
    pub path: String,
    pub threads: usize,
    pub stage: RunStage,
}

/// The result of a search that has been broken off, or not.
pub open spec fn result_after(outcome: Result<(), Stop>) -> Result<(), Fatal> {
    match outcome {
        Err(Stop::Fatal(fatal)) => Err(fatal),
        _ => Ok(()),
    }
}

impl Run {
    pub open spec fn expects(&self, event: RunEvent) -> bool {
        match event {
            RunEvent::Start => self.stage is Ready,
            RunEvent::Checked(_) => self.stage is Checking,
            RunEvent::Listed(_) => self.stage is Listing,
            RunEvent::SearchedInTurn(_) => self.stage is SearchingInTurn,
            RunEvent::Pooled(_) => self.stage is Pooling,
            RunEvent::SearchedAtOnce(_) => self.stage is SearchingAtOnce,
            RunEvent::Flushed(_) => self.stage is Flushing,
        }
    }

    pub open spec fn finished(self, r: Result<(), Fatal>) -> (Run, RunAction) {
        (Run { stage: RunStage::Finished, ..self }, RunAction::Finish(r))
    }

    /// The run once the path is known to be accessible.
    pub open spec fn accessible(self) -> (Run, RunAction) {
        if self.threads <= 1 {
            (Run { stage: RunStage::SearchingInTurn, ..self }, RunAction::SearchInTurn)
        } else {
            (Run { stage: RunStage::Pooling, ..self }, RunAction::Pool)
        }
    }

    /// The run after an event, and what is to be done then.
    pub open spec fn after(self, event: RunEvent) -> (Run, RunAction) {
        match event {
            RunEvent::Start => (Run { stage: RunStage::Checking, ..self }, RunAction::Check),
            RunEvent::Checked(Err(cause)) => self.finished(
                Err(Fatal::Access { path: self.path, cause }),
            ),
            RunEvent::Checked(Ok(is_dir)) => if is_dir {
                (Run { stage: RunStage::Listing, ..self }, RunAction::List)
            } else {
                self.accessible()
            },
            RunEvent::Listed(Err(cause)) => self.finished(
                Err(Fatal::List { path: self.path, cause }),
            ),
            RunEvent::Listed(Ok(_)) => self.accessible(),
            RunEvent::SearchedInTurn(Err(fatal)) => self.finished(Err(fatal)),
            RunEvent::SearchedInTurn(Ok(_)) => (
                Run { stage: RunStage::Flushing(Ok(())), ..self },
                RunAction::Flush,
            ),
            RunEvent::Pooled(Err(cause)) => self.finished(Err(Fatal::ThreadPool(cause))),
            RunEvent::Pooled(Ok(_)) => (
                Run { stage: RunStage::SearchingAtOnce, ..self },
                RunAction::SearchAtOnce,
            ),
            RunEvent::SearchedAtOnce(outcome) => (
                Run { stage: RunStage::Flushing(outcome), ..self },
                RunAction::Flush,
            ),
            RunEvent::Flushed(flushed) => self.finished(
                match fault::flush_result(flushed) {
                    Err(fatal) => Err(fatal),
                    Ok(_) => result_after(self.stage->Flushing_0),
                },
            ),
        }
    }

    pub fn new(path: &str, threads: usize) -> (run: Run)
        ensures
            run.path@ == path@,
            run.threads == threads,
            run.stage is Ready,
    {
        Run { path: path.to_owned(), threads, stage: RunStage::Ready }
    }

    fn start_search(&mut self) -> (action: RunAction)
        ensures
            (*final(self), action) == old(self).accessible(),
    {
        if self.threads <= 1 {
            self.stage = RunStage::SearchingInTurn;
            RunAction::SearchInTurn
        } else {
            self.stage = RunStage::Pooling;
            RunAction::Pool
        }
    }
}

/// Takes in what has happened in a run, and returns what is to be done next.
pub fn run(state: &mut Run, event: RunEvent) -> (action: RunAction)
    requires
        old(state).expects(event),
    ensures
        (*final(state), action) == old(state).after(event),
{
    let mut stage = RunStage::Finished;
    core::mem::swap(&mut stage, &mut state.stage);
    match event {
        RunEvent::Start => {
            state.stage = RunStage::Checking;
            RunAction::Check
        },
        RunEvent::Checked(Err(cause)) => RunAction::Finish(
            Err(Fatal::Access { path: state.path.clone(), cause }),
        ),
        RunEvent::Checked(Ok(is_dir)) => if is_dir {
            state.stage = RunStage::Listing;
            RunAction::List
        } else {
            state.start_search()
        },
        RunEvent::Listed(Err(cause)) => RunAction::Finish(
            Err(Fatal::List { path: state.path.clone(), cause }),
        ),
        RunEvent::Listed(Ok(_)) => state.start_search(),
        RunEvent::SearchedInTurn(Err(fatal)) => RunAction::Finish(Err(fatal)),
        RunEvent::SearchedInTurn(Ok(_)) => {
            state.stage = RunStage::Flushing(Ok(()));
            RunAction::Flush
        },
        RunEvent::Pooled(Err(cause)) => RunAction::Finish(Err(Fatal::ThreadPool(cause))),
        RunEvent::Pooled(Ok(_)) => {
            state.stage = RunStage::SearchingAtOnce;
            RunAction::SearchAtOnce
        },
        RunEvent::SearchedAtOnce(outcome) => {
            state.stage = RunStage::Flushing(outcome);
            RunAction::Flush
        },
        RunEvent::Flushed(flushed) => match flush_output(flushed) {
            Err(fatal) => RunAction::Finish(Err(fatal)),
            Ok(_) => match stage {
                RunStage::Flushing(Err(Stop::Fatal(fatal))) => RunAction::Finish(Err(fatal)),
                _ => RunAction::Finish(Ok(())),
            },
        },
    }
}

} // verus!
