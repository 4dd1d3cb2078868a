//! What holds of every search of many files, whichever way they are searched.
use crate::chunks;
use crate::fault;
use crate::fault::{Fatal, IoError, IoErrorKind, ReadFailure, SearchError, Stop};
use crate::file;
use crate::file::{FileDo, FileModel, FileStage};
use crate::lines;
use crate::output_laws;
use crate::pattern::Matcher;
use crate::run;
use crate::run::{Run, RunAction, RunEvent, RunStage};
use crate::search;
use crate::search::Found;
use crate::walk;
use crate::walk::{
    EntryAction, EntryInfo, OneAction, OneEvent, OneSearch, OneStage, SequentialWalk, WalkAction,
    WalkEvent, WalkStage, Warning,
};
use vstd::prelude::*;

verus! {

/// An entry, and what its search writes and what comes of it where it is searched.
pub struct Visit {
    pub entry: Result<EntryInfo, String>,
    pub output: Seq<u8>,
    pub result: Result<(), SearchError>,
}

impl Visit {
    /// Why the search as a whole is broken off at this entry, if it is.
    pub open spec fn stop(self, max_filesize: u64) -> Option<Stop> {
        match walk::entry_action(self.entry, max_filesize) {
            EntryAction::Search { is_root } => walk::stop_after_file(self.result, is_root),
            _ => None,
        }
    }

    /// Whether the entry is searched.
    pub open spec fn is_searched(self, max_filesize: u64) -> bool {
        walk::entry_action(self.entry, max_filesize) is Search
    }

    /// What is reported of this entry where the search goes on.
    pub open spec fn warnings(self, max_filesize: u64) -> Seq<Warning> {
        match walk::entry_action(self.entry, max_filesize) {
            EntryAction::Skip => Seq::empty(),
            EntryAction::Warn(message) => seq![Warning::Entry(message)],
            EntryAction::Search { .. } => match walk::warning_after_file(self.result) {
                Some(warning) => seq![warning],
                None => Seq::empty(),
            },
        }
    }
}

/// How many entries come before the one at which a search is broken off.
pub open spec fn before_stop(visits: Seq<Visit>, max_filesize: u64) -> nat
    decreases visits.len(),
{
    if visits.len() == 0 || visits[0].stop(max_filesize) is Some {
        0
    } else {
        1 + before_stop(visits.drop_first(), max_filesize)
    }
}

/// All that is reported of some entries.
pub open spec fn all_warnings(visits: Seq<Visit>, max_filesize: u64) -> Seq<Warning>
    decreases visits.len(),
{
    if visits.len() == 0 {
        Seq::empty()
    } else {
        visits[0].warnings(max_filesize) + all_warnings(visits.drop_first(), max_filesize)
    }
}

/// All that is written for some entries, one after the other.
pub open spec fn all_output(visits: Seq<Visit>, max_filesize: u64) -> Seq<u8>
    decreases visits.len(),
{
    if visits.len() == 0 {
        Seq::empty()
    } else {
        let later = all_output(visits.drop_first(), max_filesize);
        if visits[0].is_searched(max_filesize) {
            visits[0].output + later
        } else {
            later
        }
    }
}

/// What a search of one file after the other reports, writes and returns.
pub struct WalkOutcome {
    pub warnings: Seq<Warning>,
    pub output: Seq<u8>,
    pub result: Result<(), Fatal>,
}

impl SequentialWalk {
    /// The step of a search from one entry to the next.
    pub open spec fn visit(self, visit: Visit) -> (SequentialWalk, WalkAction) {
        let (walk, action) = self.after(WalkEvent::Entry(visit.entry));
        if action is Search {
            walk.after(WalkEvent::Searched(visit.result))
        } else {
            (walk, action)
        }
    }

    /// What is written in that step.
    pub open spec fn visit_output(self, visit: Visit) -> Seq<u8> {
        if self.after(WalkEvent::Entry(visit.entry)).1 is Search {
            visit.output
        } else {
            Seq::empty()
        }
    }

    /// All that comes of a search over some entries.
    pub open spec fn run(self, visits: Seq<Visit>) -> WalkOutcome
        decreases visits.len(),
    {
        if visits.len() == 0 {
            let action = self.after(WalkEvent::End).1;
            WalkOutcome {
                warnings: Seq::empty(),
                output: Seq::empty(),
                result: match action {
                    WalkAction::Finish(r) => r,
                    _ => Ok(()),
                },
            }
        } else {
            let (walk, action) = self.visit(visits[0]);
            let output = self.visit_output(visits[0]);
            let later = walk.run(visits.drop_first());
            match action {
                WalkAction::Finish(result) => WalkOutcome {
                    warnings: Seq::empty(),
                    output,
                    result,
                },
                WalkAction::Next(Some(warning)) => WalkOutcome {
                    warnings: seq![warning] + later.warnings,
                    output: output + later.output,
                    result: later.result,
                },
                _ => WalkOutcome { output: output + later.output, ..later },
            }
        }
    }
}

/// The search of one file after the other goes on until the first entry at which
/// it is broken off, and no further. It writes what the searches of the entries up
/// to that one write, in their order. It reports the failures of the entries
/// before, and its result depends on that entry alone.
pub proof fn law_walk_ends_at_the_first_stop(walk: SequentialWalk, visits: Seq<Visit>)
    requires
        walk.stage is Walking,
    ensures
        ({
            let max = walk.max_filesize;
            let n = before_stop(visits, max) as int;
            let outcome = walk.run(visits);
            &&& n <= visits.len()
            &&& forall|i: int| 0 <= i < n ==> (#[trigger] visits[i]).stop(max) is None
            &&& outcome.warnings == all_warnings(visits.take(n), max)
            &&& if n == visits.len() {
                &&& outcome.output == all_output(visits, max)
                &&& outcome.result is Ok
            } else {
                &&& visits[n].stop(max) is Some
                &&& outcome.output == all_output(visits.take(n + 1), max)
                &&& outcome.result == run::result_after(Err(visits[n].stop(max)->0))
            }
        }),
    decreases visits.len(),
{
    let max = walk.max_filesize;
    let n = before_stop(visits, max) as int;
    if visits.len() > 0 {
        let later = visits.drop_first();
        if n == 0 {
            assert(visits.take(0) =~= Seq::empty());
            assert(visits.take(1).drop_first() =~= Seq::empty());
            assert(all_output(Seq::empty(), max) =~= Seq::empty());
            assert(all_output(visits.take(1), max) =~= visits[0].output);
        } else {
            assert(walk.visit(visits[0]).0 == walk);
            law_walk_ends_at_the_first_stop(walk, later);
            assert forall|i: int| 0 <= i < n implies (#[trigger] visits[i]).stop(max) is None by {
                if i > 0 {
                    assert(later[i - 1] == visits[i]);
                }
            }
            assert(visits.take(n).drop_first() =~= later.take(n - 1));
            assert(walk.run(visits).warnings =~= visits[0].warnings(max) + walk.run(
                later,
            ).warnings);
            if n < visits.len() {
                assert(visits.take(n + 1).drop_first() =~= later.take(n));
                assert(walk.run(visits).output =~= all_output(visits.take(n + 1), max));
            } else {
                assert(walk.run(visits).output =~= all_output(visits, max));
            }
        }
    } else {
        assert(visits.take(0) =~= Seq::empty());
    }
}

/// A file below the searched path that cannot be read never ends the search, and
/// is always reported.
pub proof fn law_failure_below_the_path_is_reported(walk: SequentialWalk, visit: Visit)
    requires
        walk.stage is Walking,
        visit.entry matches Ok(info) && info.depth > 0 && info.searchable(walk.max_filesize),
        visit.result matches Err(SearchError::Read(_)),
    ensures
        visit.result matches Err(SearchError::Read(failure)) && walk.visit(visit) == (
            walk,
            WalkAction::Next(Some(Warning::File(failure))),
        ),
{
}

/// What comes of a file is the same where it is searched in turn and where it is
/// searched at the same time as others, as long as the rest of its output can be
/// written.
pub proof fn law_in_turn_and_at_once_agree(walk: SequentialWalk, result: Result<(), SearchError>)
    requires
        walk.stage is Searching,
    ensures
        ({
            let one = OneSearch { is_root: walk.stage->is_root, stage: OneStage::Searching };
            let (flushing, action) = one.after(OneEvent::Searched(result));
            let at_once = if action is Flush {
                flushing.after(OneEvent::Flushed(Ok(()))).1
            } else {
                action
            };
            let in_turn = walk.after(WalkEvent::Searched(result)).1;
            match at_once {
                OneAction::Finish { warning, result: Ok(_) } => in_turn == WalkAction::Next(
                    warning,
                ),
                OneAction::Finish { warning, result: outcome } => warning is None && in_turn
                    == WalkAction::Finish(run::result_after(outcome)),
                OneAction::Flush => false,
            }
        }),
{
}

/// What was found in a file is written to the end, also where the file could not
/// be read to its end. Only where a write has failed nothing more is written.
pub proof fn law_matches_before_a_failure_are_written(
    one: OneSearch,
    result: Result<(), SearchError>,
)
    requires
        one.stage is Searching,
    ensures
        one.after(OneEvent::Searched(result)).1 is Flush <==> !(result matches Err(
            SearchError::Write(_),
        )),
{
}

/// Nothing is searched before the path is known to be accessible and, where it is
/// a directory, to be listable.
pub proof fn law_path_is_checked_first(state: Run, event: RunEvent)
    ensures
        ({
            let action = state.after(event).1;
            &&& action is List ==> event == RunEvent::Checked(Ok(true))
            &&& action is SearchInTurn || action is Pool ==> event == RunEvent::Checked(Ok(false))
                || event is Listed && event->Listed_0 is Ok
            &&& action is SearchAtOnce ==> event is Pooled && event->Pooled_0 is Ok
        }),
{
}

/// A run has the same result whichever way it searches, where the searches have
/// the same outcome and the output can be completed.
pub proof fn law_runs_agree(in_turn: Run, at_once: Run, outcome: Result<(), Stop>)
    requires
        in_turn.stage is SearchingInTurn,
        at_once.stage is SearchingAtOnce,
    ensures
        ({
            let r = run::result_after(outcome);
            let (run_in_turn, action) = in_turn.after(RunEvent::SearchedInTurn(r));
            let flushed = RunEvent::Flushed(Ok(()));
            &&& at_once.after(RunEvent::SearchedAtOnce(outcome)).0.after(flushed).1
                == RunAction::Finish(r)
            &&& if action is Flush {
                run_in_turn.after(flushed).1 == RunAction::Finish(r)
            } else {
                action == RunAction::Finish(r)
            }
        }),
{
}

/// An output that nobody reads any more ends a search, and never makes it fail.
pub proof fn law_closed_output_is_no_failure(
    walk: SequentialWalk,
    one: OneSearch,
    flushing: OneSearch,
    e: IoError,
    completing: Run,
    outcome: Result<(), Stop>,
)
    requires
        e.kind == IoErrorKind::BrokenPipe,
        walk.stage is Searching,
        one.stage is Searching,
        flushing.stage is Flushing,
        completing.stage == RunStage::Flushing(outcome),
        outcome !is Err || outcome->Err_0 is BrokenPipe,
    ensures
        walk.after(WalkEvent::Searched(Err(SearchError::Write(e)))).1 == WalkAction::Finish(Ok(())),
        one.after(OneEvent::Searched(Err(SearchError::Write(e)))).1 == (OneAction::Finish {
            warning: None,
            result: Err(Stop::BrokenPipe),
        }),
        flushing.after(OneEvent::Flushed(Err(e))).1 == (OneAction::Finish {
            warning: None,
            result: Err(Stop::BrokenPipe),
        }),
        fault::flush_result(Err(e)) == Ok::<(), Fatal>(()),
        completing.after(RunEvent::Flushed(Err(e))).1 == RunAction::Finish(Ok(())),
        completing.after(RunEvent::Flushed(Ok(()))).1 == RunAction::Finish(Ok(())),
{
}

/// A write that fails for any other reason always makes the search fail.
pub proof fn law_failed_write_is_a_failure(
    walk: SequentialWalk,
    one: OneSearch,
    completing: Run,
    e: IoError,
)
    requires
        e.kind != IoErrorKind::BrokenPipe,
        walk.stage is Searching,
        one.stage is Searching,
        completing.stage is Flushing,
    ensures
        walk.after(WalkEvent::Searched(Err(SearchError::Write(e)))).1 == WalkAction::Finish(
            Err(Fatal::Write(e)),
        ),
        one.after(OneEvent::Searched(Err(SearchError::Write(e)))).1 == (OneAction::Finish {
            warning: None,
            result: Err(Stop::Fatal(Fatal::Write(e))),
        }),
        completing.after(RunEvent::Flushed(Err(e))).1 == RunAction::Finish(Err(Fatal::Flush(e))),
{
}

/// A file to be searched, and what its reads return.
pub struct Source {
    pub search: FileModel,
    pub reads: Seq<Result<Seq<u8>, IoError>>,
}

impl Source {
    /// Whether the file has just been opened.
    pub open spec fn opened(self) -> bool {
        &&& self.search.scan == search::fresh()
        &&& self.search.stage == FileStage::Sniffing
    }

    /// All that its search writes.
    pub open spec fn written(self, re: Matcher, color: bool) -> Seq<Seq<u8>> {
        self.search.run(FileDo::Fill, self.reads, re, color).0
    }
}

proof fn lemma_printed_is_whole(
    path: Seq<char>,
    max_columns: nat,
    color: bool,
    re: Matcher,
    founds: Seq<Found>,
)
    ensures
        chunks::all_whole(file::all_printed(path, max_columns, color, re, founds)),
{
    let printed = file::all_printed(path, max_columns, color, re, founds);
    assert forall|i: int| 0 <= i < printed.len() implies chunks::is_whole(
        #[trigger] printed[i],
    ) by {
        output_laws::law_match_ends_its_line(
            color,
            path,
            founds[i].line_no,
            founds[i].text,
            max_columns as int,
            re.spans(founds[i].text),
        );
    }
}

proof fn lemma_written_is_whole(source: Source, re: Matcher, color: bool)
    requires
        source.opened(),
    ensures
        chunks::is_whole(search::joined(source.written(re, color))),
{
    let m = source.search;
    let reads = file::searched_reads(source.reads);
    let bytes = search::searched(
        search::arrived(false, reads),
        search::failure(false, reads) is Some,
    );
    file::law_file_prints_its_matching_lines(m, source.reads, re, color);
    lemma_printed_is_whole(
        m.path@,
        m.max_columns,
        color,
        re,
        search::matching_lines(lines::lines(bytes), 0, re),
    );
    assert(chunks::all_whole(source.written(re, color)));
    chunks::lemma_whole_joined(source.written(re, color));
}

/// Files that are searched at the same time print the same lines, each as often,
/// as when they are searched in turn, however they are read, whether or not their
/// reads fail, and in whichever order the chunks of their output come out.
pub proof fn law_at_once_prints_the_same_lines(
    sources: Seq<Source>,
    re: Matcher,
    color: bool,
    threshold: int,
    output: Seq<Seq<u8>>,
)
    requires
        forall|i: int| 0 <= i < sources.len() ==> (#[trigger] sources[i]).opened(),
        ({
            let writes = sources.map_values(|source: Source| source.written(re, color));
            output.to_multiset() == chunks::chunks_of(writes, threshold).to_multiset()
        }),
    ensures
        ({
            let writes = sources.map_values(|source: Source| source.written(re, color));
            chunks::line_bag(output) == lines::lines(chunks::written(writes)).to_multiset()
        }),
{
    let writes = sources.map_values(|source: Source| source.written(re, color));
    assert forall|i: int| 0 <= i < writes.len() implies chunks::is_whole(
        search::joined(#[trigger] writes[i]),
    ) by {
        assert(sources[i].opened());
        lemma_written_is_whole(sources[i], re, color);
    }
    chunks::law_shared_output_has_the_same_lines(writes, threshold, output);
}

/// The writes of the searches of those entries that are searched.
pub open spec fn searched_writes(
    visits: Seq<Visit>,
    writes: Seq<Seq<Seq<u8>>>,
    max_filesize: u64,
) -> Seq<Seq<Seq<u8>>>
    decreases visits.len(),
{
    if visits.len() == 0 || writes.len() == 0 {
        Seq::empty()
    } else {
        let later = searched_writes(visits.drop_first(), writes.drop_first(), max_filesize);
        if visits[0].is_searched(max_filesize) {
            seq![writes[0]] + later
        } else {
            later
        }
    }
}

proof fn lemma_searched_writes(
    visits: Seq<Visit>,
    writes: Seq<Seq<Seq<u8>>>,
    max_filesize: u64,
)
    requires
        visits.len() == writes.len(),
        forall|i: int|
            0 <= i < visits.len() ==> (#[trigger] visits[i]).output == search::joined(writes[i]),
        forall|i: int|
            0 <= i < writes.len() ==> chunks::is_whole(search::joined(#[trigger] writes[i])),
    ensures
        ({
            let chosen = searched_writes(visits, writes, max_filesize);
            &&& chunks::written(chosen) == all_output(visits, max_filesize)
            &&& forall|i: int|
                0 <= i < chosen.len() ==> chunks::is_whole(search::joined(#[trigger] chosen[i]))
        }),
    decreases visits.len(),
{
    if visits.len() > 0 {
        let (later_visits, later_writes) = (visits.drop_first(), writes.drop_first());
        assert forall|i: int| 0 <= i < later_visits.len() implies (
        #[trigger] later_visits[i]).output == search::joined(later_writes[i]) by {
            assert(later_visits[i] == visits[i + 1]);
        }
        assert forall|i: int| 0 <= i < later_writes.len() implies chunks::is_whole(
            search::joined(#[trigger] later_writes[i]),
        ) by {
            assert(later_writes[i] == writes[i + 1]);
        }
        lemma_searched_writes(later_visits, later_writes, max_filesize);
        let later = searched_writes(later_visits, later_writes, max_filesize);
        let chosen = searched_writes(visits, writes, max_filesize);
        assert(visits[0].output == search::joined(writes[0]));
        assert(chunks::is_whole(search::joined(writes[0])));
        if visits[0].is_searched(max_filesize) {
            assert(chosen.drop_first() =~= later);
            assert forall|i: int| 0 <= i < chosen.len() implies chunks::is_whole(
                search::joined(#[trigger] chosen[i]),
            ) by {
                if i > 0 {
                    assert(chosen[i] == later[i - 1]);
                }
            }
        }
    }
}

/// A search that nothing breaks off prints the same lines, each as often, whether
/// it takes one file after the other or several at the same time.
pub proof fn law_both_ways_print_the_same_lines(
    walk: SequentialWalk,
    visits: Seq<Visit>,
    sources: Seq<Source>,
    re: Matcher,
    color: bool,
    threshold: int,
    output: Seq<Seq<u8>>,
)
    requires
        walk.stage is Walking,
        visits.len() == sources.len(),
        before_stop(visits, walk.max_filesize) == visits.len(),
        forall|i: int|
            0 <= i < sources.len() ==> (#[trigger] sources[i]).opened() && visits[i].output
                == search::joined(sources[i].written(re, color)),
        ({
            let writes = sources.map_values(|source: Source| source.written(re, color));
            let chosen = searched_writes(visits, writes, walk.max_filesize);
            output.to_multiset() == chunks::chunks_of(chosen, threshold).to_multiset()
        }),
    ensures
        chunks::line_bag(output) == lines::lines(walk.run(visits).output).to_multiset(),
{
    let writes = sources.map_values(|source: Source| source.written(re, color));
    let chosen = searched_writes(visits, writes, walk.max_filesize);
    assert forall|i: int| 0 <= i < writes.len() implies chunks::is_whole(
        search::joined(#[trigger] writes[i]),
    ) by {
        assert(sources[i].opened());
        lemma_written_is_whole(sources[i], re, color);
    }
    assert forall|i: int| 0 <= i < visits.len() implies (#[trigger] visits[i]).output
        == search::joined(writes[i]) by {
        assert(sources[i].opened());
    }
    lemma_searched_writes(visits, writes, walk.max_filesize);
    law_walk_ends_at_the_first_stop(walk, visits);
    chunks::law_shared_output_has_the_same_lines(chosen, threshold, output);
}

/// It makes no difference to the output and the result how a file is cut into
/// reads, and how often these are interrupted, as long as the first read is not,
/// and leads to the same decision on whether the file is binary.
pub proof fn law_cuts_of_a_file_do_not_matter(a: Source, b: Source, re: Matcher, color: bool)
    requires
        a.opened(),
        b.opened(),
        a.search == b.search,
        search::arrived(false, file::searched_reads(a.reads)) == search::arrived(
            false,
            file::searched_reads(b.reads),
        ),
        search::failure(false, file::searched_reads(a.reads)) == search::failure(
            false,
            file::searched_reads(b.reads),
        ),
        match (search::next_read(a.reads), search::next_read(b.reads)) {
            (Ok(head_a), Ok(head_b)) => file::is_binary(head_a) == file::is_binary(head_b),
            (Err(e_a), Err(e_b)) => e_a.kind != IoErrorKind::Interrupted && e_b.kind
                != IoErrorKind::Interrupted,
            _ => false,
        },
    ensures
        a.search.run(FileDo::Fill, a.reads, re, color) == b.search.run(
            FileDo::Fill,
            b.reads,
            re,
            color,
        ),
{
    file::law_file_prints_its_matching_lines(a.search, a.reads, re, color);
    file::law_file_prints_its_matching_lines(b.search, b.reads, re, color);
}

/// Only regular files are searched. Without a limit all of them are; with one those
/// are that are not known to be larger. A file that is skipped for its size is
/// skipped at every larger size and under every smaller limit.
pub proof fn law_files_over_the_limit_are_skipped(
    info: EntryInfo,
    max: u64,
    larger: EntryInfo,
    smaller: u64,
)
    requires
        larger.is_file == info.is_file,
        larger.len is Some && info.len is Some ==> larger.len->0 >= info.len->0,
        0 < smaller <= max,
    ensures
        info.searchable(max) ==> info.is_file == Some(true),
        info.is_file == Some(true) ==> info.searchable(0),
        info.is_file == Some(true) && info.len is None ==> info.searchable(max),
        info.is_file == Some(true) && info.len is Some ==> (info.searchable(max) <==> info.len->0
            <= max),
        !info.searchable(max) && info.len is Some && larger.len is Some ==> !larger.searchable(max),
        !info.searchable(max) ==> !info.searchable(smaller),
{
}

/// What is done about an entry follows from what is known of it: nothing known is
/// reported, and the searched path itself is the one at depth 0.
pub proof fn law_what_is_done_about_an_entry(
    info: EntryInfo,
    message: String,
    max: u64,
)
    ensures
        walk::entry_action(Err(message), max) == EntryAction::Warn(message),
        walk::entry_action(Ok(info), max) is Warn ==> false,
        walk::entry_action(Ok(info), max) is Skip <==> !(info.is_file == Some(true) && (max == 0
            || info.len is None || info.len->0 <= max)),
        walk::entry_action(Ok(info), max) matches EntryAction::Search { is_root } ==> (is_root
            <==> info.depth == 0),
{
}

/// What the search of one file means for all: only a failed write, or a failure to
/// read the searched path itself, ends the search; any other failure to read is
/// reported.
pub proof fn law_what_a_file_means_for_the_search(failure: ReadFailure, e: IoError, is_root: bool)
    ensures
        walk::stop_after_file(Ok(()), is_root) is None,
        walk::warning_after_file(Ok(())) is None,
        walk::stop_after_file(Err(SearchError::Read(failure)), false) is None,
        walk::stop_after_file(Err(SearchError::Read(failure)), true) == Some(
            Stop::Fatal(Fatal::ReadRoot(failure)),
        ),
        walk::warning_after_file(Err(SearchError::Read(failure))) == Some(Warning::File(failure)),
        walk::warning_after_file(Err(SearchError::Write(e))) is None,
        walk::stop_after_file(Err(SearchError::Write(e)), is_root) == Some(
            if e.kind == IoErrorKind::BrokenPipe {
                Stop::BrokenPipe
            } else {
                Stop::Fatal(Fatal::Write(e))
            },
        ),
        fault::stop_after_write(e) == if e.kind == IoErrorKind::BrokenPipe {
            Stop::BrokenPipe
        } else {
            Stop::Fatal(Fatal::Write(e))
        },
{
}

/// The steps of a search of one file after the other. The limit never changes, and
/// the search goes on to the next entry unless it has ended.
pub proof fn law_steps_of_a_walk(walk: SequentialWalk, event: WalkEvent)
    ensures
        walk.expects(event) <==> if event is Searched {
            walk.stage is Searching
        } else {
            walk.stage is Walking
        },
        ({
            let (after, action) = walk.after(event);
            &&& after.max_filesize == walk.max_filesize
            &&& action is Next ==> after.stage is Walking
            &&& action is Search ==> after.stage is Searching
            &&& action is Finish ==> after.stage is Finished
            &&& match event {
                WalkEvent::End => action == WalkAction::Finish(Ok(())),
                WalkEvent::Entry(Err(message)) => action == WalkAction::Next(
                    Some(Warning::Entry(message)),
                ),
                WalkEvent::Entry(Ok(info)) => if info.is_file == Some(true) && (walk.max_filesize
                    == 0 || info.len is None || info.len->0 <= walk.max_filesize) {
                    action is Search && after.stage == (WalkStage::Searching {
                        is_root: info.depth == 0,
                    })
                } else {
                    action == WalkAction::Next(None)
                },
                WalkEvent::Searched(Ok(_)) => action == WalkAction::Next(None),
                WalkEvent::Searched(Err(SearchError::Read(failure))) => if walk.stage->is_root {
                    action == WalkAction::Finish(Err(Fatal::ReadRoot(failure)))
                } else {
                    action == WalkAction::Next(Some(Warning::File(failure)))
                },
                WalkEvent::Searched(Err(SearchError::Write(e))) => action == WalkAction::Finish(
                    if e.kind == IoErrorKind::BrokenPipe {
                        Ok(())
                    } else {
                        Err(Fatal::Write(e))
                    },
                ),
            }
        }),
{
}

/// The steps of one of several searches at the same time, from the outcome of its
/// search and of the writing of the rest of its output to what is reported and what
/// becomes of the others.
pub proof fn law_steps_of_one_search(
    is_root: bool,
    result: Result<(), SearchError>,
    flushed: Result<(), IoError>,
    other: OneSearch,
)
    ensures
        other.expects(OneEvent::Searched(result)) <==> other.stage is Searching,
        other.expects(OneEvent::Flushed(flushed)) <==> other.stage is Flushing,
        ({
            let one = OneSearch { is_root, stage: OneStage::Searching };
            let (flushing, action) = one.after(OneEvent::Searched(result));
            let last = if action is Flush {
                flushing.after(OneEvent::Flushed(flushed))
            } else {
                (flushing, action)
            };
            &&& action is Flush ==> flushing.stage is Flushing
            &&& last.0.stage is Finished
            &&& last.1 == match (result, flushed) {
                (Err(SearchError::Write(e)), _) => OneAction::Finish {
                    warning: None,
                    result: Err(
                        if e.kind == IoErrorKind::BrokenPipe {
                            Stop::BrokenPipe
                        } else {
                            Stop::Fatal(Fatal::Write(e))
                        },
                    ),
                },
                (_, Err(e)) => OneAction::Finish {
                    warning: None,
                    result: Err(
                        if e.kind == IoErrorKind::BrokenPipe {
                            Stop::BrokenPipe
                        } else {
                            Stop::Fatal(Fatal::Write(e))
                        },
                    ),
                },
                (Ok(_), Ok(_)) => OneAction::Finish { warning: None, result: Ok(()) },
                (Err(SearchError::Read(failure)), Ok(_)) => if is_root {
                    OneAction::Finish {
                        warning: None,
                        result: Err(Stop::Fatal(Fatal::ReadRoot(failure))),
                    }
                } else {
                    OneAction::Finish { warning: Some(Warning::File(failure)), result: Ok(()) }
                },
            }
        }),
{
}

} // verus!
