//! The single steps of the machines that a run is made of.
use fastgrep_rs::fault::{
    flush_output, write_stop, Fatal, FileAccess, IoError, IoErrorKind, ReadFailure, SearchError,
    Stop,
};
use fastgrep_rs::file::{
    looks_binary, search_file, FileAction, FileEvent, FileSearch, BINARY_SNIFF_BYTES,
};
use fastgrep_rs::output::Printer;
use fastgrep_rs::pattern::Matcher;
use fastgrep_rs::run::{plan, run, ColorWhen, Host, Run, RunAction, RunEvent, Settings};
use fastgrep_rs::walk::{
    search_one, search_sequential, should_search, take_entry, EntryAction, EntryInfo, OneAction,
    OneEvent, OneSearch, SequentialWalk, WalkAction, WalkEvent, Warning,
};

fn error(kind: IoErrorKind) -> IoError {
    IoError {
        kind,
        message: "why".to_string(),
    }
}

fn unread() -> SearchError {
    SearchError::Read(ReadFailure {
        access: FileAccess::Read,
        path: "p".to_string(),
        cause: error(IoErrorKind::Other),
    })
}

fn entry(depth: usize, is_file: Option<bool>, len: Option<u64>) -> EntryInfo {
    EntryInfo {
        depth,
        is_file,
        len,
    }
}

#[test]
fn which_entries_are_searched() {
    assert!(should_search(&entry(1, Some(true), Some(10)), 10));
    assert!(!should_search(&entry(1, Some(true), Some(11)), 10));
    assert!(should_search(&entry(1, Some(true), Some(11)), 0));
    assert!(should_search(&entry(1, Some(true), None), 10));
    assert!(!should_search(&entry(1, Some(false), Some(1)), 10));
    assert!(!should_search(&entry(0, None, Some(1)), 0));
}

#[test]
fn what_to_do_about_an_entry() {
    assert!(matches!(
        take_entry(Ok(entry(0, Some(true), None)), 1),
        EntryAction::Search { is_root: true }
    ));
    assert!(matches!(
        take_entry(Ok(entry(3, Some(true), None)), 1),
        EntryAction::Search { is_root: false }
    ));
    assert!(matches!(
        take_entry(Ok(entry(0, Some(false), None)), 1),
        EntryAction::Skip
    ));
    match take_entry(Err("loop".to_string()), 1) {
        EntryAction::Warn(message) => assert_eq!(Warning::Entry(message).text(), "warning: loop"),
        other => panic!("{other:?}"),
    }
}

#[test]
fn binary_files_are_told_by_their_first_bytes() {
    assert!(!looks_binary(b""));
    assert!(!looks_binary(b"text"));
    assert!(looks_binary(b"te\0xt"));
    let mut head = vec![b'x'; BINARY_SNIFF_BYTES + 1];
    head[BINARY_SNIFF_BYTES] = 0;
    assert!(!looks_binary(&head));
    head[BINARY_SNIFF_BYTES - 1] = 0;
    assert!(looks_binary(&head));
}

#[test]
fn a_file_from_start_to_end() {
    let re = Matcher::new("x", false).unwrap();
    let printer = Printer::new(false);
    let mut search = FileSearch::new("p", 2);
    let mut step = |event| search_file(&mut search, event, &re, &printer);
    assert!(matches!(step(FileEvent::Start), FileAction::Open));
    assert!(matches!(step(FileEvent::Opened(Ok(()))), FileAction::Fill));
    assert!(matches!(
        step(FileEvent::Filled(Ok(b"a\nax".to_vec()))),
        FileAction::Fill
    ));
    assert!(matches!(
        step(FileEvent::Filled(Err(error(IoErrorKind::Interrupted)))),
        FileAction::Fill
    ));
    match step(FileEvent::Filled(Ok(b"b\n\0x".to_vec()))) {
        FileAction::Write(bytes) => {
            assert_eq!(String::from_utf8(bytes).unwrap(), "p:2:ax …[+1 chars]\n")
        }
        other => panic!("{other:?}"),
    }
    assert!(matches!(step(FileEvent::Wrote(Ok(()))), FileAction::Fill));
    match step(FileEvent::Filled(Ok(Vec::new()))) {
        FileAction::Write(bytes) => assert_eq!(bytes, b"p:3:\0x\n"),
        other => panic!("{other:?}"),
    }
    // The last line had no newline: one more read shows that the file ends there.
    assert!(matches!(step(FileEvent::Wrote(Ok(()))), FileAction::Fill));
    assert!(matches!(
        step(FileEvent::Filled(Ok(Vec::new()))),
        FileAction::Finish(Ok(()))
    ));
}

#[test]
fn a_file_that_fails() {
    let re = Matcher::new("x", false).unwrap();
    let printer = Printer::new(false);
    let mut search = FileSearch::new("p", 0);
    search_file(&mut search, FileEvent::Start, &re, &printer);
    match search_file(
        &mut search,
        FileEvent::Opened(Err(error(IoErrorKind::Other))),
        &re,
        &printer,
    ) {
        FileAction::Finish(Err(SearchError::Read(failure))) => {
            assert_eq!(failure.context(), "failed to open p");
            assert_eq!(failure.cause.message, "why");
        }
        other => panic!("{other:?}"),
    }

    // The first read is not tried again, even where it was interrupted.
    let mut search = FileSearch::new("p", 0);
    search_file(&mut search, FileEvent::Start, &re, &printer);
    search_file(&mut search, FileEvent::Opened(Ok(())), &re, &printer);
    match search_file(
        &mut search,
        FileEvent::Filled(Err(error(IoErrorKind::Interrupted))),
        &re,
        &printer,
    ) {
        FileAction::Finish(Err(SearchError::Read(failure))) => {
            assert_eq!(failure.context(), "failed to read p")
        }
        other => panic!("{other:?}"),
    }

    let mut search = FileSearch::new("p", 0);
    search_file(&mut search, FileEvent::Start, &re, &printer);
    search_file(&mut search, FileEvent::Opened(Ok(())), &re, &printer);
    search_file(
        &mut search,
        FileEvent::Filled(Ok(b"x\n".to_vec())),
        &re,
        &printer,
    );
    assert!(matches!(
        search_file(
            &mut search,
            FileEvent::Wrote(Err(error(IoErrorKind::Other))),
            &re,
            &printer
        ),
        FileAction::Finish(Err(SearchError::Write(_)))
    ));
}

#[test]
fn failed_writes() {
    assert!(matches!(
        write_stop(error(IoErrorKind::BrokenPipe)),
        Stop::BrokenPipe
    ));
    match write_stop(error(IoErrorKind::Interrupted)) {
        Stop::Fatal(fatal) => assert_eq!(fatal.chain(), vec!["failed to write output", "why"]),
        other => panic!("{other:?}"),
    }
    assert!(flush_output(Ok(())).is_ok());
    assert!(flush_output(Err(error(IoErrorKind::BrokenPipe))).is_ok());
    assert_eq!(
        flush_output(Err(error(IoErrorKind::Other)))
            .unwrap_err()
            .chain(),
        vec!["failed to flush output", "why"]
    );
}

/// What comes of a file in turn and at once: the warning, and what ends the
/// search.
fn both_ways(
    is_root: bool,
    result: impl Fn() -> Result<(), SearchError>,
) -> [(Option<String>, Option<Result<(), Vec<String>>>); 2] {
    let mut walk = SequentialWalk::new(0);
    let depth = if is_root { 0 } else { 1 };
    assert!(matches!(
        search_sequential(
            &mut walk,
            WalkEvent::Entry(Ok(entry(depth, Some(true), None)))
        ),
        WalkAction::Search
    ));
    let in_turn = match search_sequential(&mut walk, WalkEvent::Searched(result())) {
        WalkAction::Next(warning) => (warning.map(|w| w.text()), None),
        WalkAction::Finish(r) => (None, Some(r.map_err(|e| e.chain()))),
        WalkAction::Search => panic!("searched twice"),
    };
    let mut one = OneSearch::new(is_root);
    let mut action = search_one(&mut one, OneEvent::Searched(result()));
    if matches!(action, OneAction::Flush) {
        action = search_one(&mut one, OneEvent::Flushed(Ok(())));
    }
    let at_once = match action {
        OneAction::Finish { warning, result } => (
            warning.map(|w| w.text()),
            match result {
                Ok(()) => None,
                Err(Stop::BrokenPipe) => Some(Ok(())),
                Err(Stop::Fatal(e)) => Some(Err(e.chain())),
            },
        ),
        OneAction::Flush => panic!("flushed twice"),
    };
    [in_turn, at_once]
}

#[test]
fn in_turn_and_at_once_agree() {
    for is_root in [false, true] {
        for way in both_ways(is_root, || Ok(())) {
            assert_eq!(way, (None, None));
        }
        for way in both_ways(is_root, || {
            Err(SearchError::Write(error(IoErrorKind::BrokenPipe)))
        }) {
            assert_eq!(way, (None, Some(Ok(()))));
        }
        for way in both_ways(is_root, || {
            Err(SearchError::Write(error(IoErrorKind::Other)))
        }) {
            let chain = vec!["failed to write output".to_string(), "why".to_string()];
            assert_eq!(way, (None, Some(Err(chain))));
        }
    }
    for way in both_ways(false, || Err(unread())) {
        let warning = "warning: failed to read p: why".to_string();
        assert_eq!(way, (Some(warning), None));
    }
    for way in both_ways(true, || Err(unread())) {
        let chain = vec![
            "failed to read requested path".to_string(),
            "failed to read p".to_string(),
            "why".to_string(),
        ];
        assert_eq!(way, (None, Some(Err(chain))));
    }
}

#[test]
fn the_rest_of_the_output_can_fail() {
    for result in [Ok(()), Err(unread())] {
        let mut one = OneSearch::new(true);
        search_one(&mut one, OneEvent::Searched(result));
        match search_one(
            &mut one,
            OneEvent::Flushed(Err(error(IoErrorKind::BrokenPipe))),
        ) {
            OneAction::Finish { warning, result } => {
                assert!(warning.is_none());
                assert!(matches!(result, Err(Stop::BrokenPipe)));
            }
            other => panic!("{other:?}"),
        }
    }
    let mut one = OneSearch::new(false);
    search_one(&mut one, OneEvent::Searched(Err(unread())));
    match search_one(&mut one, OneEvent::Flushed(Err(error(IoErrorKind::Other)))) {
        OneAction::Finish { warning, result } => {
            assert!(warning.is_none());
            assert!(matches!(result, Err(Stop::Fatal(Fatal::Write(_)))));
        }
        other => panic!("{other:?}"),
    }
}

#[test]
fn a_walk_over_entries() {
    let mut walk = SequentialWalk::new(5);
    assert!(matches!(
        search_sequential(
            &mut walk,
            WalkEvent::Entry(Ok(entry(0, Some(false), Some(1))))
        ),
        WalkAction::Next(None)
    ));
    match search_sequential(&mut walk, WalkEvent::Entry(Err("bad".to_string()))) {
        WalkAction::Next(Some(warning)) => assert_eq!(warning.text(), "warning: bad"),
        other => panic!("{other:?}"),
    }
    assert!(matches!(
        search_sequential(
            &mut walk,
            WalkEvent::Entry(Ok(entry(1, Some(true), Some(6))))
        ),
        WalkAction::Next(None)
    ));
    assert!(matches!(
        search_sequential(&mut walk, WalkEvent::End),
        WalkAction::Finish(Ok(()))
    ));
}

fn host() -> Host {
    Host {
        parallelism: Some(8),
        is_terminal: true,
        width: Some(80),
        shows_color: true,
    }
}

fn settings() -> Settings {
    Settings {
        pattern: "x".to_string(),
        path: "p".to_string(),
        ignore_case: true,
        color: ColorWhen::Auto,
        max_columns: None,
        max_filesize: "2K".to_string(),
        threads: 0,
    }
}

#[test]
fn a_plan_follows_settings_and_host() {
    let p = plan(Matcher::new("x", true), &settings(), &host());
    let p = p.ok().unwrap();
    assert_eq!(p.max_filesize, 2048);
    assert_eq!((p.max_columns, p.threads, p.color, p.blocks), (80, 8, true, false));
    assert!(p.matcher.is_match("X"));

    let mut settings = settings();
    settings.color = ColorWhen::Never;
    settings.max_columns = Some(0);
    settings.threads = 3;
    let p = plan(Matcher::new("x", true), &settings, &host());
    let p = p.ok().unwrap();
    assert_eq!((p.max_columns, p.threads, p.color, p.blocks), (0, 3, false, false));

    settings.color = ColorWhen::Always;
    settings.max_columns = None;
    settings.threads = 0;
    let host = Host {
        parallelism: None,
        is_terminal: false,
        width: Some(80),
        shows_color: false,
    };
    let p = plan(Matcher::new("x", true), &settings, &host);
    let p = p.ok().unwrap();
    assert_eq!((p.max_columns, p.threads, p.color, p.blocks), (0, 1, true, true));

    settings.color = ColorWhen::Auto;
    assert!(!settings.use_color(&host));
    let host = Host {
        is_terminal: true,
        width: None,
        ..host
    };
    assert_eq!(settings.column_limit(&host), 0);
    assert_eq!(settings.thread_count(&host), 1);
}

#[test]
fn a_run_step_by_step() {
    let mut state = Run::new("p", 1);
    assert!(matches!(run(&mut state, RunEvent::Start), RunAction::Check));
    assert!(matches!(
        run(&mut state, RunEvent::Checked(Ok(true))),
        RunAction::List
    ));
    assert!(matches!(
        run(&mut state, RunEvent::Listed(Ok(()))),
        RunAction::SearchInTurn
    ));
    assert!(matches!(
        run(&mut state, RunEvent::SearchedInTurn(Ok(()))),
        RunAction::Flush
    ));
    assert!(matches!(
        run(
            &mut state,
            RunEvent::Flushed(Err(error(IoErrorKind::BrokenPipe)))
        ),
        RunAction::Finish(Ok(()))
    ));

    let mut state = Run::new("p", 2);
    run(&mut state, RunEvent::Start);
    assert!(matches!(
        run(&mut state, RunEvent::Checked(Ok(false))),
        RunAction::Pool
    ));
    assert!(matches!(
        run(&mut state, RunEvent::Pooled(Ok(()))),
        RunAction::SearchAtOnce
    ));
    assert!(matches!(
        run(&mut state, RunEvent::SearchedAtOnce(Err(Stop::BrokenPipe))),
        RunAction::Flush
    ));
    assert!(matches!(
        run(&mut state, RunEvent::Flushed(Ok(()))),
        RunAction::Finish(Ok(()))
    ));
}

#[test]
fn a_run_that_fails() {
    let mut state = Run::new("p", 2);
    run(&mut state, RunEvent::Start);
    run(&mut state, RunEvent::Checked(Ok(false)));
    match run(&mut state, RunEvent::Pooled(Err("none left".to_string()))) {
        RunAction::Finish(Err(e)) => {
            assert_eq!(e.chain(), vec!["failed to build thread pool", "none left"])
        }
        other => panic!("{other:?}"),
    }

    // A flush that fails comes before the outcome of the search.
    let mut state = Run::new("p", 2);
    run(&mut state, RunEvent::Start);
    run(&mut state, RunEvent::Checked(Ok(false)));
    run(&mut state, RunEvent::Pooled(Ok(())));
    let stop = write_stop(error(IoErrorKind::Other));
    run(&mut state, RunEvent::SearchedAtOnce(Err(stop)));
    assert!(matches!(
        run(
            &mut state,
            RunEvent::Flushed(Err(error(IoErrorKind::Other)))
        ),
        RunAction::Finish(Err(Fatal::Flush(_)))
    ));

    let mut state = Run::new("p", 1);
    run(&mut state, RunEvent::Start);
    run(&mut state, RunEvent::Checked(Ok(false)));
    let fatal = Fatal::Write(error(IoErrorKind::Other));
    assert!(matches!(
        run(&mut state, RunEvent::SearchedInTurn(Err(fatal))),
        RunAction::Finish(Err(Fatal::Write(_)))
    ));
}

/// All that the search of a file writes, and its result.
fn play(mut reads: Vec<Result<&[u8], IoErrorKind>>) -> (String, Result<(), String>) {
    let re = Matcher::new("x", false).unwrap();
    let printer = Printer::new(false);
    let mut search = FileSearch::new("p", 0);
    let mut out = Vec::new();
    let mut event = FileEvent::Start;
    reads.reverse();
    loop {
        event = match search_file(&mut search, event, &re, &printer) {
            FileAction::Open => FileEvent::Opened(Ok(())),
            FileAction::Fill => FileEvent::Filled(match reads.pop() {
                Some(Ok(bytes)) => Ok(bytes.to_vec()),
                Some(Err(kind)) => Err(error(kind)),
                None => Ok(Vec::new()),
            }),
            FileAction::Write(bytes) => {
                out.extend(bytes);
                FileEvent::Wrote(Ok(()))
            }
            FileAction::Finish(r) => {
                let r = match r {
                    Ok(()) => Ok(()),
                    Err(SearchError::Read(failure)) => Err(failure.context()),
                    Err(SearchError::Write(e)) => Err(e.message),
                };
                return (String::from_utf8(out).unwrap(), r);
            }
        };
    }
}

#[test]
fn a_file_that_fails_is_printed_up_to_its_last_whole_line() {
    let failed = Err("failed to read p".to_string());
    assert_eq!(
        play(vec![
            Ok(b"x1\ny\nx"),
            Err(IoErrorKind::Interrupted),
            Ok(b"2\nx3"),
            Err(IoErrorKind::Other),
            Ok(b"x4\n"),
        ]),
        ("p:1:x1\np:3:x2\n".to_string(), failed.clone())
    );
    assert_eq!(
        play(vec![Ok(b"x"), Err(IoErrorKind::Other)]),
        (String::new(), failed.clone())
    );
    assert_eq!(
        play(vec![Err(IoErrorKind::Other), Ok(b"x\n")]),
        (String::new(), failed)
    );
    assert_eq!(
        play(vec![Ok(b"x1\ny\nx2\nx3")]),
        ("p:1:x1\np:3:x2\np:4:x3\n".to_string(), Ok(()))
    );
    assert_eq!(play(vec![Ok(b"\0x\n")]), (String::new(), Ok(())));
}

#[test]
fn a_file_that_grows_while_it_is_read() {
    // After a first read without bytes, the next one is searched, and not looked
    // at for zero bytes.
    assert_eq!(
        play(vec![Ok(b""), Ok(b"x\0\n")]),
        ("p:1:x\0\n".to_string(), Ok(()))
    );
    assert_eq!(play(vec![Ok(b""), Ok(b""), Ok(b"x\n")]), (String::new(), Ok(())));
    // Within a line a read without bytes ends the line, between lines the file.
    assert_eq!(
        play(vec![Ok(b"x1"), Ok(b""), Ok(b"x2\n"), Ok(b""), Ok(b"x3\n")]),
        ("p:1:x1\np:2:x2\n".to_string(), Ok(()))
    );
    assert_eq!(
        play(vec![Ok(b"x1"), Ok(b""), Err(IoErrorKind::Other)]),
        ("p:1:x1\n".to_string(), Err("failed to read p".to_string()))
    );
}

#[test]
fn a_walk_searches_up_to_the_first_stop() {
    let mut walk = SequentialWalk::new(0);
    let mut searched = 0;
    for i in 0..5 {
        let kind = if i == 1 { Some(false) } else { Some(true) };
        match search_sequential(&mut walk, WalkEvent::Entry(Ok(entry(1, kind, None)))) {
            WalkAction::Next(None) => continue,
            WalkAction::Search => searched += 1,
            other => panic!("{other:?}"),
        }
        let result = match i {
            2 => Err(unread()),
            3 => Err(SearchError::Write(error(IoErrorKind::Other))),
            _ => Ok(()),
        };
        match search_sequential(&mut walk, WalkEvent::Searched(result)) {
            WalkAction::Next(warning) => assert_eq!(warning.is_some(), i == 2),
            WalkAction::Finish(r) => {
                assert_eq!(r.unwrap_err().chain()[0], "failed to write output");
                assert_eq!((i, searched), (3, 3));
                return;
            }
            other => panic!("{other:?}"),
        }
    }
    panic!("not broken off");
}
