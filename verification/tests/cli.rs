//! Whole runs over files that are kept in memory.
use fastgrep_rs::chunks::ChunkWriter;
use fastgrep_rs::fault::{Fatal, IoError, IoErrorKind, SearchError, Stop};
use fastgrep_rs::file::{search_file, FileAction, FileEvent, FileSearch};
use fastgrep_rs::output::Printer;
use fastgrep_rs::run::{
    prepare, run, ColorWhen, Host, Plan, Run, RunAction, RunEvent, Settings,
};
use fastgrep_rs::walk::{
    search_one, search_sequential, take_entry, EntryAction, EntryInfo, OneAction, OneEvent,
    OneSearch, SequentialWalk, WalkAction, WalkEvent, Warning,
};

/// A file: its path and its content.
type File = (String, Vec<u8>);

struct World {
    files: Vec<File>,
    /// Whether the searched path is one of the files.
    single: bool,
    exists: bool,
    can_list: bool,
    /// After how many bytes writes fail, and how.
    writable: usize,
    failure: IoErrorKind,
    out: Vec<u8>,
    warnings: Vec<String>,
}

fn failed(kind: IoErrorKind) -> IoError {
    IoError {
        kind,
        message: "failed".to_string(),
    }
}

impl World {
    fn new(files: Vec<File>) -> World {
        World {
            files,
            single: false,
            exists: true,
            can_list: true,
            writable: usize::MAX,
            failure: IoErrorKind::BrokenPipe,
            out: Vec::new(),
            warnings: Vec::new(),
        }
    }

    fn write(&mut self, bytes: &[u8]) -> Result<(), IoError> {
        if self.out.len() + bytes.len() > self.writable {
            return Err(failed(self.failure));
        }
        self.out.extend_from_slice(bytes);
        Ok(())
    }

    fn entry(&self, i: usize) -> Result<EntryInfo, String> {
        Ok(EntryInfo {
            depth: if self.single { 0 } else { 1 },
            is_file: Some(true),
            len: Some(self.files[i].1.len() as u64),
        })
    }

    /// Searches one file. Where there is a writer, the output goes through it.
    fn search(
        &mut self,
        i: usize,
        plan: &Plan,
        printer: &Printer,
        mut writer: Option<&mut ChunkWriter>,
    ) -> Result<(), SearchError> {
        let (path, content) = self.files[i].clone();
        let mut search = FileSearch::new(&path, plan.max_columns);
        let mut event = FileEvent::Start;
        let mut pos = 0;
        loop {
            event = match search_file(&mut search, event, &plan.matcher, printer) {
                FileAction::Open => FileEvent::Opened(if path.contains("unreadable") {
                    Err(failed(IoErrorKind::Other))
                } else {
                    Ok(())
                }),
                FileAction::Fill => {
                    let end = content.len().min(pos + 8192);
                    let bytes = content[pos..end].to_vec();
                    pos = end;
                    if path.contains("broken") && bytes.is_empty() {
                        FileEvent::Filled(Err(failed(IoErrorKind::Other)))
                    } else {
                        assert!(search.has_room(bytes.len()));
                        FileEvent::Filled(Ok(bytes))
                    }
                }
                FileAction::Write(bytes) => FileEvent::Wrote(match writer.as_mut() {
                    None => self.write(&bytes),
                    Some(cw) => {
                        let n = cw.write(&bytes);
                        let r = self.write(cw.front(n));
                        if r.is_ok() {
                            cw.passed_on(n);
                        }
                        r
                    }
                }),
                FileAction::Finish(r) => return r,
            };
        }
    }

    fn in_turn(&mut self, plan: &Plan, printer: &Printer) -> Result<(), Fatal> {
        let mut walk = SequentialWalk::new(plan.max_filesize);
        let mut next = 0;
        let mut event = if self.files.is_empty() {
            WalkEvent::End
        } else {
            WalkEvent::Entry(self.entry(0))
        };
        loop {
            event = match search_sequential(&mut walk, event) {
                WalkAction::Next(warning) => {
                    if let Some(warning) = warning {
                        self.warnings.push(warning.text());
                    }
                    next += 1;
                    if next < self.files.len() {
                        WalkEvent::Entry(self.entry(next))
                    } else {
                        WalkEvent::End
                    }
                }
                WalkAction::Search => WalkEvent::Searched(self.search(next, plan, printer, None)),
                WalkAction::Finish(r) => return r,
            };
        }
    }

    /// Takes the files from the last to the first.
    fn at_once(&mut self, plan: &Plan, printer: &Printer) -> Result<(), Stop> {
        for i in (0..self.files.len()).rev() {
            let is_root = match take_entry(self.entry(i), plan.max_filesize) {
                EntryAction::Skip => continue,
                EntryAction::Warn(message) => {
                    self.warnings.push(Warning::Entry(message).text());
                    continue;
                }
                EntryAction::Search { is_root } => is_root,
            };
            let mut cw = ChunkWriter::with_threshold(40);
            let mut one = OneSearch::new(is_root);
            let mut event = OneEvent::Searched(self.search(i, plan, printer, Some(&mut cw)));
            loop {
                event = match search_one(&mut one, event) {
                    OneAction::Flush => {
                        let n = cw.flush();
                        let r = self.write(cw.front(n));
                        if r.is_ok() {
                            cw.passed_on(n);
                        }
                        OneEvent::Flushed(r)
                    }
                    OneAction::Finish { warning, result } => {
                        if let Some(warning) = warning {
                            self.warnings.push(warning.text());
                        }
                        result?;
                        break;
                    }
                };
            }
        }
        Ok(())
    }

    fn grep(&mut self, settings: &Settings) -> Result<(), Vec<String>> {
        let host = Host {
            parallelism: Some(4),
            is_terminal: false,
            width: Some(80),
            shows_color: false,
        };
        let plan = prepare(settings, &host).map_err(|e| e.chain())?;
        let printer = Printer::new(plan.color);
        let mut state = Run::new(&settings.path, plan.threads);
        let mut event = RunEvent::Start;
        loop {
            event = match run(&mut state, event) {
                RunAction::Check => RunEvent::Checked(if self.exists {
                    Ok(!self.single)
                } else {
                    Err(failed(IoErrorKind::Other))
                }),
                RunAction::List => RunEvent::Listed(if self.can_list {
                    Ok(())
                } else {
                    Err(failed(IoErrorKind::Other))
                }),
                RunAction::SearchInTurn => {
                    RunEvent::SearchedInTurn(self.in_turn(&plan, &printer))
                }
                RunAction::Pool => RunEvent::Pooled(Ok(())),
                RunAction::SearchAtOnce => {
                    RunEvent::SearchedAtOnce(self.at_once(&plan, &printer))
                }
                RunAction::Flush => RunEvent::Flushed(Ok(())),
                RunAction::Finish(r) => return r.map_err(|e| e.chain()),
            };
        }
    }

    fn stdout(&self) -> String {
        String::from_utf8(self.out.clone()).unwrap()
    }
}

fn file(path: &str, content: &str) -> File {
    (path.to_string(), content.as_bytes().to_vec())
}

fn settings(pattern: &str) -> Settings {
    Settings {
        pattern: pattern.to_string(),
        path: "dir".to_string(),
        ignore_case: false,
        color: ColorWhen::Never,
        max_columns: None,
        max_filesize: "1M".to_string(),
        threads: 0,
    }
}

#[test]
fn finds_and_formats_matches() {
    let mut world = World::new(vec![file("dir/a.txt", "alpha\nTODO here\nomega\n")]);
    world.grep(&settings("TODO")).unwrap();
    assert!(world.stdout().contains("a.txt:2:TODO here"));
}

#[test]
fn no_match_is_success_with_empty_stdout() {
    let mut world = World::new(vec![file("dir/a.txt", "alpha\nbeta\n")]);
    world.grep(&settings("ZZZ")).unwrap();
    assert!(world.stdout().is_empty());
}

#[test]
fn ignore_case_flag() {
    let files = vec![file("dir/a.txt", "Hello TODO\n")];
    let mut world = World::new(files.clone());
    let mut args = settings("todo");
    args.ignore_case = true;
    world.grep(&args).unwrap();
    assert!(world.stdout().contains("a.txt:1:"));

    let mut world = World::new(files);
    world.grep(&settings("todo")).unwrap();
    assert!(world.stdout().is_empty());
}

#[test]
fn single_file_path() {
    let mut world = World::new(vec![file("dir/only.txt", "TODO one\nno\nTODO two\n")]);
    world.single = true;
    world.grep(&settings("TODO")).unwrap();
    assert!(world.stdout().contains("only.txt:1:TODO one"));
    assert!(world.stdout().contains("only.txt:3:TODO two"));
}

#[test]
fn nonexistent_path_fails() {
    let mut world = World::new(Vec::new());
    world.exists = false;
    let mut args = settings("x");
    args.path = "dir/does-not-exist".to_string();
    let chain = world.grep(&args).unwrap_err();
    assert_eq!(
        chain,
        vec!["cannot access path: dir/does-not-exist", "failed"]
    );
    assert!(chain.join(": ").contains("cannot access path"));
}

#[test]
fn invalid_regex_fails() {
    let mut world = World::new(Vec::new());
    let chain = world.grep(&settings("(")).unwrap_err();
    assert_eq!(chain[0], "invalid regex pattern: (");
    assert!(chain[1].contains("unclosed group"));
    assert!(chain.join(": ").contains("invalid regex pattern"));
}

#[test]
fn skips_files_over_max_filesize() {
    let big = format!("{}\nTODO big\n", "x".repeat(2 * 1024 * 1024));
    let files = vec![
        file("dir/big.txt", &big),
        file("dir/small.txt", "TODO small\n"),
    ];

    let mut world = World::new(files.clone());
    world.grep(&settings("TODO")).unwrap();
    assert!(world.stdout().contains("small.txt:1:TODO small"));
    assert!(!world.stdout().contains("big.txt"));

    // Without a limit it is searched. Its first line is too long, the second matches.
    let mut world = World::new(files);
    let mut args = settings("TODO");
    args.max_filesize = "0".to_string();
    world.grep(&args).unwrap();
    assert!(world.stdout().contains("big.txt:2:TODO big"));
}

#[test]
fn binary_file_is_skipped() {
    let mut data = vec![0u8];
    data.extend_from_slice(b"TODO match\n");
    let mut world = World::new(vec![
        ("dir/bin.dat".to_string(), data),
        file("dir/text.txt", "TODO text\n"),
    ]);
    world.grep(&settings("TODO")).unwrap();
    assert!(world.stdout().contains("text.txt:1:TODO text"));
    assert!(!world.stdout().contains("bin.dat"));
}

#[test]
fn max_columns_truncates_body() {
    let mut world = World::new(vec![file(
        "dir/a.txt",
        &format!("TODO {}\n", "y".repeat(100)),
    )]);
    let mut args = settings("TODO");
    args.max_columns = Some(8);
    world.grep(&args).unwrap();
    assert!(world.stdout().contains("…[+") && world.stdout().contains("chars]"));
    assert_eq!(world.stdout(), "dir/a.txt:1:TODO yyy …[+97 chars]\n");
}

#[test]
fn color_never_is_plain_and_always_has_ansi() {
    let files = vec![file("dir/a.txt", "TODO x\n")];
    let mut world = World::new(files.clone());
    world.grep(&settings("TODO")).unwrap();
    assert!(!world.stdout().contains("\u{1b}["));

    let mut world = World::new(files);
    let mut args = settings("TODO");
    args.color = ColorWhen::Always;
    world.grep(&args).unwrap();
    assert!(world.stdout().contains("\u{1b}["));
}

#[test]
fn sequential_and_parallel_produce_same_matches() {
    let mut files = Vec::new();
    for i in 0..20 {
        let content = (0..5)
            .map(|j| format!("f{i} TODO {j}"))
            .collect::<Vec<_>>()
            .join("\n");
        files.push(file(&format!("dir/f{i}.txt"), &content));
    }

    // The order may differ, so the lines are sorted.
    let lines = |threads: usize| -> Vec<String> {
        let mut world = World::new(files.clone());
        let mut args = settings("TODO");
        args.threads = threads;
        world.grep(&args).unwrap();
        let mut lines: Vec<String> = world.stdout().lines().map(str::to_string).collect();
        lines.sort();
        lines
    };

    let seq = lines(1);
    assert_eq!(seq.len(), 100, "20 files of 5 lines each");
    assert_eq!(seq, lines(4), "the same lines in both ways");
}

#[test]
fn invalid_size_fails() {
    let mut world = World::new(Vec::new());
    let mut args = settings("x");
    args.max_filesize = "1X".to_string();
    assert_eq!(
        world.grep(&args).unwrap_err(),
        vec!["invalid size value: 1X", "invalid digit found in string"]
    );
    args.max_filesize = " ".to_string();
    assert_eq!(world.grep(&args).unwrap_err(), vec!["empty size"]);
    args.max_filesize = "99999999999999G".to_string();
    assert_eq!(
        world.grep(&args).unwrap_err(),
        vec!["size value is too large: 99999999999999G"]
    );
    // The pattern is looked at first.
    args.pattern = "(".to_string();
    assert_eq!(
        world.grep(&args).unwrap_err()[0],
        "invalid regex pattern: ("
    );
}

#[test]
fn directory_that_cannot_be_listed_fails() {
    let mut world = World::new(vec![file("dir/a", "x\n")]);
    world.can_list = false;
    assert_eq!(
        world.grep(&settings("x")).unwrap_err(),
        vec!["cannot read directory: dir", "failed"]
    );
    assert!(world.out.is_empty());
}

#[test]
fn failures_below_the_path_are_reported_and_the_search_goes_on() {
    for threads in [1, 2] {
        let mut world = World::new(vec![
            file("dir/unreadable", "TODO\n"),
            file("dir/broken", "TODO 1\nTODO"),
            file("dir/fine", "TODO 2\n"),
        ]);
        let mut args = settings("TODO");
        args.threads = threads;
        world.grep(&args).unwrap();
        let mut lines: Vec<String> = world.stdout().lines().map(str::to_string).collect();
        lines.sort();
        assert_eq!(lines, vec!["dir/broken:1:TODO 1", "dir/fine:1:TODO 2"]);
        world.warnings.sort();
        assert_eq!(
            world.warnings,
            vec![
                "warning: failed to open dir/unreadable: failed",
                "warning: failed to read dir/broken: failed",
            ]
        );
    }
}

#[test]
fn a_file_that_was_asked_for_and_cannot_be_read_fails() {
    for threads in [1, 2] {
        let mut world = World::new(vec![file("unreadable", "TODO\n")]);
        world.single = true;
        let mut args = settings("TODO");
        args.threads = threads;
        assert_eq!(
            world.grep(&args).unwrap_err(),
            vec![
                "failed to read requested path",
                "failed to open unreadable",
                "failed"
            ]
        );
        // What was found before a failure is printed.
        let mut world = World::new(vec![file("broken", "TODO 1\nx\nTODO 2\n")]);
        world.single = true;
        assert_eq!(
            world.grep(&args).unwrap_err(),
            vec![
                "failed to read requested path",
                "failed to read broken",
                "failed"
            ]
        );
        assert_eq!(world.stdout(), "broken:1:TODO 1\nbroken:3:TODO 2\n");
    }
}

#[test]
fn closed_output_ends_the_search_without_an_error() {
    for threads in [1, 2] {
        let mut world = World::new(vec![
            file("dir/a", "TODO 1\nTODO 2\n"),
            file("dir/b", "TODO 3\n"),
        ]);
        world.writable = 20;
        let mut args = settings("TODO");
        args.threads = threads;
        world.grep(&args).unwrap();
        assert!(world.out.len() <= 20);
        assert!(world.warnings.is_empty());
    }
}

#[test]
fn failed_output_is_an_error() {
    for threads in [1, 2] {
        let mut world = World::new(vec![file("dir/a", "TODO 1\n")]);
        world.writable = 0;
        world.failure = IoErrorKind::Other;
        let mut args = settings("TODO");
        args.threads = threads;
        assert_eq!(
            world.grep(&args).unwrap_err(),
            vec!["failed to write output", "failed"]
        );
    }
}
