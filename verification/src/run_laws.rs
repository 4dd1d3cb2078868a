//! What holds of all runs, and how their failures are worded.
use crate::fault;
use crate::fault::{Fatal, FileAccess, IoError, IoErrorKind, ReadFailure, Stop};
use crate::pattern;
use crate::pattern::{Matcher, PatternError};
use crate::run;
use crate::run::{ColorWhen, Host, Run, RunAction, RunEvent, RunStage, Settings};
use crate::size::SizeError;
use crate::walk::Warning;
use vstd::prelude::*;
use vstd::string::*;

verus! {

/// How a run searches follows from what is asked for, and from the host only where
/// nothing is asked for.
pub proof fn law_settings_come_before_the_host(
    settings: Settings,
    host: Host,
    matcher: Matcher,
    max_filesize: u64,
)
    ensures
        ({
            let plan = settings.planned(host, matcher, max_filesize);
            &&& plan.matcher == matcher
            &&& plan.max_filesize == max_filesize
            &&& settings.color == ColorWhen::Always ==> plan.color
            &&& settings.color == ColorWhen::Never ==> !plan.color
            &&& settings.color == ColorWhen::Auto ==> plan.color == host.shows_color
            &&& settings.threads > 0 ==> plan.threads == settings.threads
            &&& settings.threads == 0 && host.parallelism is Some ==> plan.threads
                == host.parallelism->0
            &&& settings.threads == 0 && host.parallelism is None ==> plan.threads == 1
            &&& settings.max_columns is Some ==> plan.max_columns == settings.max_columns->0
            &&& settings.max_columns is None && !host.is_terminal ==> plan.max_columns == 0
            &&& settings.max_columns is None && host.width is None ==> plan.max_columns == 0
            &&& settings.max_columns is None && host.is_terminal && host.width is Some
                ==> plan.max_columns == host.width->0
            &&& plan.blocks == !host.is_terminal
        }),
{
}

/// The steps of a run: the path is looked at and, where it is a directory, listed;
/// with at most one thread the files are searched in turn, with more at the same
/// time; the output is flushed, and a flush that fails comes before the outcome of
/// the search. Neither the path nor the number of threads changes.
pub proof fn law_steps_of_a_run(state: Run, event: RunEvent)
    ensures
        state.expects(event) <==> match event {
            RunEvent::Start => state.stage is Ready,
            RunEvent::Checked(_) => state.stage is Checking,
            RunEvent::Listed(_) => state.stage is Listing,
            RunEvent::SearchedInTurn(_) => state.stage is SearchingInTurn,
            RunEvent::Pooled(_) => state.stage is Pooling,
            RunEvent::SearchedAtOnce(_) => state.stage is SearchingAtOnce,
            RunEvent::Flushed(_) => state.stage is Flushing,
        },
        ({
            let (after, action) = state.after(event);
            let outcome = match state.stage->Flushing_0 {
                Err(Stop::Fatal(fatal)) => Err(fatal),
                _ => Ok(()),
            };
            let search = if state.threads <= 1 {
                action is SearchInTurn && after.stage is SearchingInTurn
            } else {
                action is Pool && after.stage is Pooling
            };
            &&& after.path == state.path
            &&& after.threads == state.threads
            &&& action is Finish ==> after.stage is Finished
            &&& match event {
                RunEvent::Start => action is Check && after.stage is Checking,
                RunEvent::Checked(Err(cause)) => action == RunAction::Finish(
                    Err(Fatal::Access { path: state.path, cause }),
                ),
                RunEvent::Checked(Ok(is_dir)) => if is_dir {
                    action is List && after.stage is Listing
                } else {
                    search
                },
                RunEvent::Listed(Err(cause)) => action == RunAction::Finish(
                    Err(Fatal::List { path: state.path, cause }),
                ),
                RunEvent::Listed(Ok(_)) => search,
                RunEvent::SearchedInTurn(Err(fatal)) => action == RunAction::Finish(Err(fatal)),
                RunEvent::SearchedInTurn(Ok(_)) => action is Flush && after.stage
                    == RunStage::Flushing(Ok(())),
                RunEvent::Pooled(Err(cause)) => action == RunAction::Finish(
                    Err(Fatal::ThreadPool(cause)),
                ),
                RunEvent::Pooled(Ok(_)) => action is SearchAtOnce && after.stage
                    is SearchingAtOnce,
                RunEvent::SearchedAtOnce(outcome) => action is Flush && after.stage
                    == RunStage::Flushing(outcome),
                RunEvent::Flushed(Err(e)) => action == RunAction::Finish(
                    if e.kind == IoErrorKind::BrokenPipe {
                        outcome
                    } else {
                        Err(Fatal::Flush(e))
                    },
                ),
                RunEvent::Flushed(Ok(_)) => action == RunAction::Finish(outcome),
            }
        }),
{
}

/// A flush counts as failed unless it succeeds or nobody reads the output any
/// more, and a search that was broken off for that has not failed.
pub proof fn law_results_of_flush_and_search(e: IoError, fatal: Fatal)
    ensures
        fault::flush_result(Ok(())) is Ok,
        e.kind == IoErrorKind::BrokenPipe ==> fault::flush_result(Err(e)) is Ok,
        e.kind != IoErrorKind::BrokenPipe ==> fault::flush_result(Err(e)) == Err::<(), Fatal>(
            Fatal::Flush(e),
        ),
        run::result_after(Ok(())) is Ok,
        run::result_after(Err(Stop::BrokenPipe)) is Ok,
        run::result_after(Err(Stop::Fatal(fatal))) == Err::<(), Fatal>(fatal),
{
}

/// The wording of a failure to open or to read a file, and of the warnings.
pub proof fn law_wording_of_warnings(failure: ReadFailure, message: String)
    ensures
        failure.access == FileAccess::Open ==> failure.context_text() == "failed to open "@
            + failure.path@,
        failure.access == FileAccess::Read ==> failure.context_text() == "failed to read "@
            + failure.path@,
        Warning::Entry(message).text_model() == "warning: "@ + message@,
        Warning::File(failure).text_model() == "warning: "@ + (failure.context_text() + ": "@
            + failure.cause.message@),
{
}

/// The wording of the failures of a run, each with its causes after it.
pub proof fn law_wording_of_failures(fatal: Fatal)
    ensures
        match fatal {
            Fatal::Pattern { pattern, error } => fatal.chain_texts() == seq![
                "invalid regex pattern: "@ + pattern@,
                error.message@,
            ],
            Fatal::Size(SizeError::Empty) => fatal.chain_texts() == seq!["empty size"@],
            Fatal::Size(SizeError::Invalid { value, cause }) => fatal.chain_texts() == seq![
                "invalid size value: "@ + value@,
                cause@,
            ],
            Fatal::Size(SizeError::TooLarge { value }) => fatal.chain_texts() == seq![
                "size value is too large: "@ + value@,
            ],
            Fatal::Access { path, cause } => fatal.chain_texts() == seq![
                "cannot access path: "@ + path@,
                cause.message@,
            ],
            Fatal::List { path, cause } => fatal.chain_texts() == seq![
                "cannot read directory: "@ + path@,
                cause.message@,
            ],
            Fatal::ReadRoot(failure) => fatal.chain_texts() == seq![
                "failed to read requested path"@,
                failure.context_text(),
                failure.cause.message@,
            ],
            Fatal::Write(cause) => fatal.chain_texts() == seq![
                "failed to write output"@,
                cause.message@,
            ],
            Fatal::Flush(cause) => fatal.chain_texts() == seq![
                "failed to flush output"@,
                cause.message@,
            ],
            Fatal::ThreadPool(cause) => fatal.chain_texts() == seq![
                "failed to build thread pool"@,
                cause@,
            ],
        },
{
}

/// The texts of a list are those of its items, in their order.
pub proof fn law_texts_of_a_list(texts: Seq<String>)
    ensures
        fault::texts_of(texts).len() == texts.len(),
        forall|i: int| 0 <= i < texts.len() ==> #[trigger] fault::texts_of(texts)[i] == texts[i]@,
{
}

/// A pattern is refused for its syntax, with the message of the expression's
/// compiler, or for the size of its compiled form.
pub proof fn law_refused_patterns(pattern: Seq<char>, ignore_case: bool, e: PatternError)
    requires
        pattern::refused(pattern, ignore_case, e),
    ensures
        e.syntax <==> pattern::regex_syntax_error(pattern, ignore_case) is Some,
        e.syntax ==> e.message@ == pattern::regex_syntax_error(pattern, ignore_case)->0,
        !e.syntax ==> e.message@ == "Compiled regex exceeds size limit of 10485760 bytes."@,
{
}

} // verus!
