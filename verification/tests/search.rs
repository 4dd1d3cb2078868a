use fastgrep_rs::fault::{IoError, IoErrorKind};
use fastgrep_rs::input::{read_capped_line, Input, ReadError};
use fastgrep_rs::pattern::Matcher;
use fastgrep_rs::search::{
    decode_line, hit_if, search_reader, LineSearch, SearchStep, MAX_LINE_BYTES,
};

/// The matches in what has arrived, and the step that ended the search.
fn drain(search: &mut LineSearch, re: &Matcher) -> (Vec<(usize, String)>, SearchStep) {
    let mut out = Vec::new();
    loop {
        match search_reader(search, re) {
            SearchStep::Match(hit) => out.push((hit.line_no, hit.text)),
            step => return (out, step),
        }
    }
}

/// An input that has arrived, up to a read that returned nothing.
fn read_all(content: &[u8]) -> Input {
    let mut input = Input::new();
    if !content.is_empty() {
        input.fill(content);
    }
    input.fill(b"");
    input
}

/// The matches up to the end of the input, where no more arrives.
fn finish(search: &mut LineSearch, re: &Matcher) -> Vec<(usize, String)> {
    let mut out = Vec::new();
    loop {
        let (more, step) = drain(search, re);
        out.extend(more);
        match step {
            SearchStep::Pending => search.fill(b""),
            SearchStep::Done => return out,
            other => panic!("{other:?}"),
        }
    }
}

fn collect_matches(content: &[u8], re: &Matcher) -> Vec<(usize, String)> {
    finish(&mut LineSearch::new(read_all(content)), re)
}

fn io_error(kind: IoErrorKind, message: &str) -> IoError {
    IoError {
        kind,
        message: message.to_string(),
    }
}

#[test]
fn matches_single_line() {
    let re = Matcher::new("world", false).unwrap();
    let matches = collect_matches(b"hello\nworld\nfoo", &re);
    assert_eq!(matches, vec![(2, "world".to_string())]);
}

#[test]
fn matches_multiple_lines_with_regex() {
    let re = Matcher::new(r"第[0-9]+条", false).unwrap();
    let matches = collect_matches("前文\n第1条 著作権\n説明\n第12条 範囲".as_bytes(), &re);
    assert_eq!(
        matches,
        vec![
            (2, "第1条 著作権".to_string()),
            (4, "第12条 範囲".to_string()),
        ]
    );
}

#[test]
fn no_match_returns_empty() {
    let re = Matcher::new("missing", false).unwrap();
    assert!(collect_matches(b"a\nb\nc", &re).is_empty());
}

#[test]
fn strips_crlf_before_matching() {
    // The carriage return is not part of the text.
    let re = Matcher::new("^world$", false).unwrap();
    let matches = collect_matches(b"hello\r\nworld\r\n", &re);
    assert_eq!(matches, vec![(2, "world".to_string())]);
}

#[test]
fn skips_oversized_line() {
    // A line over the limit is not searched, the lines around it are.
    let big = "x".repeat(MAX_LINE_BYTES + 10);
    let content = format!("hit\n{big}\nhit\n");
    let re = Matcher::new("hit", false).unwrap();
    let matches = collect_matches(content.as_bytes(), &re);
    assert_eq!(
        matches,
        vec![(1, "hit".to_string()), (3, "hit".to_string())]
    );
}

#[test]
fn case_insensitive_via_builder() {
    let re = Matcher::new("todo", true).unwrap();
    let matches = collect_matches(b"TODO: x\nnope\n", &re);
    assert_eq!(matches, vec![(1, "TODO: x".to_string())]);
}

#[test]
fn read_capped_line_reads_lines_and_eof() {
    let data = b"abc\ndef\n".to_vec();
    let mut reader = read_all(&data[..]);
    let mut buf = Vec::new();

    assert_eq!(
        read_capped_line(&mut reader, &mut buf, 1024).unwrap(),
        Some(false)
    );
    assert_eq!(&buf, b"abc");
    assert_eq!(
        read_capped_line(&mut reader, &mut buf, 1024).unwrap(),
        Some(false)
    );
    assert_eq!(&buf, b"def");
    assert_eq!(read_capped_line(&mut reader, &mut buf, 1024).unwrap(), None);
}

#[test]
fn read_capped_line_flags_oversized() {
    // A long line with a limit of 4 bytes, and then the end.
    let data = b"0123456789\n".to_vec();
    let mut reader = read_all(&data[..]);
    let mut buf = Vec::new();

    assert_eq!(
        read_capped_line(&mut reader, &mut buf, 4).unwrap(),
        Some(true)
    );
    assert_eq!(read_capped_line(&mut reader, &mut buf, 4).unwrap(), None);
}

#[test]
fn a_line_of_exactly_the_limit_is_whole() {
    let mut reader = read_all(b"abcd\nabcde\n\nab");
    let mut buf = b"left over".to_vec();
    assert_eq!(read_capped_line(&mut reader, &mut buf, 4).unwrap(), Some(false));
    assert_eq!(&buf, b"abcd");
    assert_eq!(read_capped_line(&mut reader, &mut buf, 4).unwrap(), Some(true));
    assert_eq!(read_capped_line(&mut reader, &mut buf, 4).unwrap(), Some(false));
    assert_eq!(&buf, b"");
    assert_eq!(read_capped_line(&mut reader, &mut buf, 4).unwrap(), Some(false));
    assert_eq!(&buf, b"ab");
    // The last line had no newline: the input may still go on after it.
    for _ in 0..2 {
        assert!(matches!(
            read_capped_line(&mut reader, &mut buf, 4),
            Err(ReadError::Pending)
        ));
        reader.fill(b"");
        assert_eq!(read_capped_line(&mut reader, &mut buf, 4).unwrap(), None);
    }
}

#[test]
fn a_line_that_arrives_in_parts() {
    let mut reader = Input::new();
    let mut buf = Vec::new();
    assert!(matches!(
        read_capped_line(&mut reader, &mut buf, 6),
        Err(ReadError::Pending)
    ));
    reader.fill(b"abc");
    assert!(matches!(
        read_capped_line(&mut reader, &mut buf, 6),
        Err(ReadError::Pending)
    ));
    assert!(reader.mid_line());
    reader.fail(io_error(IoErrorKind::Interrupted, "again"));
    reader.fill(b"def\nxyz");
    assert_eq!(read_capped_line(&mut reader, &mut buf, 6).unwrap(), Some(false));
    assert_eq!(&buf, b"abcdef");
    assert_eq!(reader.unread_len(), 3);
    assert!(matches!(
        read_capped_line(&mut reader, &mut buf, 6),
        Err(ReadError::Pending)
    ));
    reader.fill(b"");
    assert_eq!(read_capped_line(&mut reader, &mut buf, 6).unwrap(), Some(false));
    assert_eq!(&buf, b"xyz");
    reader.fill(b"");
    assert_eq!(read_capped_line(&mut reader, &mut buf, 6).unwrap(), None);
}

#[test]
fn an_oversized_line_that_arrives_in_parts() {
    let mut reader = Input::new();
    let mut buf = Vec::new();
    for part in ["abc", "def", "g"] {
        reader.fill(part.as_bytes());
        assert!(matches!(
            read_capped_line(&mut reader, &mut buf, 5),
            Err(ReadError::Pending)
        ));
        assert!(buf.len() <= 5);
    }
    reader.fill(b"\nok\n");
    assert_eq!(read_capped_line(&mut reader, &mut buf, 5).unwrap(), Some(true));
    assert_eq!(read_capped_line(&mut reader, &mut buf, 5).unwrap(), Some(false));
    assert_eq!(&buf, b"ok");
}

#[test]
fn a_failed_read_is_returned() {
    let mut reader = Input::new();
    let mut buf = Vec::new();
    reader.fill(b"one\ntwo");
    reader.fail(io_error(IoErrorKind::Other, "gone"));
    assert_eq!(read_capped_line(&mut reader, &mut buf, 9).unwrap(), Some(false));
    assert_eq!(&buf, b"one");
    match read_capped_line(&mut reader, &mut buf, 9) {
        Err(ReadError::Failed(e)) => assert_eq!(e.message, "gone"),
        other => panic!("{other:?}"),
    }
}

#[test]
fn lines_that_are_not_utf8_are_skipped_and_counted() {
    let re = Matcher::new("hit", false).unwrap();
    assert_eq!(
        collect_matches(b"hit \xff\nhit \xc3\nhit\xe3\x81\x82\n\nhit", &re),
        vec![(3, "hitあ".to_string()), (5, "hit".to_string())]
    );
}

#[test]
fn all_carriage_returns_at_the_end_are_dropped() {
    let re = Matcher::new("", false).unwrap();
    assert_eq!(
        collect_matches(b"a\r\r\n\r\nb\rc\r", &re),
        vec![
            (1, "a".to_string()),
            (2, String::new()),
            (3, "b\rc".to_string())
        ]
    );
}

#[test]
fn a_line_at_the_limit_is_searched() {
    let line = "x".repeat(MAX_LINE_BYTES);
    let re = Matcher::new("^x+$", false).unwrap();
    assert_eq!(
        collect_matches(line.as_bytes(), &re),
        vec![(1, line.clone())]
    );
    assert!(collect_matches(format!("{line}x").as_bytes(), &re).is_empty());
}

#[test]
fn cuts_in_the_input_do_not_matter() {
    let content = "eins\r\nzwei hit\n\nあhitい\nhit".as_bytes();
    let re = Matcher::new("hit", false).unwrap();
    let whole = collect_matches(content, &re);
    assert_eq!(whole.len(), 3);
    for first in 0..=content.len() {
        for second in first..=content.len() {
            let mut search = LineSearch::new(Input::new());
            let mut found = Vec::new();
            for part in [
                &content[..first],
                &content[first..second],
                &content[second..],
            ] {
                if part.is_empty() {
                    continue;
                }
                assert!(search.has_room(part.len()));
                search.fill(part);
                let (more, step) = drain(&mut search, &re);
                assert!(matches!(step, SearchStep::Pending));
                found.extend(more);
            }
            found.extend(finish(&mut search, &re));
            assert_eq!(found, whole);
        }
    }
}

#[test]
fn a_search_goes_on_after_an_interruption_and_ends_at_a_failure() {
    let re = Matcher::new("hit", false).unwrap();
    let mut search = LineSearch::new(Input::new());
    search.fill(b"hit 1\nhi");
    let (found, step) = drain(&mut search, &re);
    assert_eq!(found, vec![(1, "hit 1".to_string())]);
    assert!(matches!(step, SearchStep::Pending));
    search.fail(io_error(IoErrorKind::Interrupted, "again"));
    assert!(matches!(search_reader(&mut search, &re), SearchStep::Pending));
    search.fill(b"t 2\nhit");
    let (found, _) = drain(&mut search, &re);
    assert_eq!(found, vec![(2, "hit 2".to_string())]);
    search.fail(io_error(IoErrorKind::Other, "gone"));
    match search_reader(&mut search, &re) {
        SearchStep::Failed(e) => assert_eq!(e.message, "gone"),
        other => panic!("{other:?}"),
    }
}

#[test]
fn room_for_line_numbers() {
    let search = LineSearch::new(read_all(b"a\nb"));
    assert!(search.has_room(usize::MAX - 3));
    assert!(!search.has_room(usize::MAX - 2));
    let mut search = LineSearch::new(Input::new());
    assert!(search.has_room(usize::MAX));
    search.fill(b"ab");
    let re = Matcher::new("x", false).unwrap();
    assert!(matches!(search_reader(&mut search, &re), SearchStep::Pending));
    assert!(search.has_room(usize::MAX - 1));
    assert!(!search.has_room(usize::MAX));
}

#[test]
fn patterns_that_cannot_be_compiled() {
    match Matcher::new("(", false) {
        Err(e) => {
            assert!(e.syntax);
            assert!(e.message.contains("unclosed group"), "{}", e.message);
        }
        Ok(_) => panic!("accepted"),
    }
    match Matcher::new("[a-z]{10}{1000}{1000}", false) {
        Err(e) => {
            assert!(!e.syntax);
            assert_eq!(
                e.message,
                "Compiled regex exceeds size limit of 10485760 bytes."
            );
        }
        Ok(_) => panic!("accepted"),
    }
}

#[test]
fn matches_of_a_pattern_as_byte_offsets() {
    let re = Matcher::new("b+|$", false).unwrap();
    assert!(re.is_match("あbbあb"));
    assert_eq!(re.find_all("あbbあb"), vec![(3, 5), (8, 9)]);
    assert_eq!(re.find_all("aBa"), vec![(3, 3)]);
    let re = Matcher::new("b", true).unwrap();
    assert_eq!(re.find_all("aBa"), vec![(1, 2)]);
    assert!(!re.is_match("あ"));
    assert!(re.find_all("あ").is_empty());
}

#[test]
fn text_of_a_line() {
    assert_eq!(decode_line(b"abc\r\r"), Some("abc"));
    assert_eq!(decode_line("日本\r".as_bytes()), Some("日本"));
    assert_eq!(decode_line(b""), Some(""));
    assert_eq!(decode_line(b"\r\n"), Some(""));
    assert_eq!(decode_line(b"a\xff"), None);
    let hit = hit_if(true, 4, "t").unwrap();
    assert_eq!((hit.line_no, hit.text.as_str()), (4, "t"));
    assert!(hit_if(false, 4, "t").is_none());
}

#[test]
fn with_a_limit_of_zero_every_line_but_an_empty_one_is_oversized() {
    let mut reader = read_all(b"a\n\nbc");
    let mut buf = b"left over".to_vec();
    for oversized in [true, false, true] {
        assert_eq!(
            read_capped_line(&mut reader, &mut buf, 0).unwrap(),
            Some(oversized)
        );
        assert!(buf.is_empty());
    }
    reader.fill(b"");
    assert_eq!(read_capped_line(&mut reader, &mut buf, 0).unwrap(), None);
}

#[test]
fn an_input_can_grow_after_a_read_that_returned_nothing() {
    let re = Matcher::new("hit", false).unwrap();
    let mut search = LineSearch::new(read_all(b"hit 1\nhit 2"));
    let (found, step) = drain(&mut search, &re);
    assert_eq!(
        found,
        vec![(1, "hit 1".to_string()), (2, "hit 2".to_string())]
    );
    assert!(matches!(step, SearchStep::Pending));
    search.fill(b" 3\nhit 4\n");
    let (found, _) = drain(&mut search, &re);
    assert_eq!(found, vec![(4, "hit 4".to_string())]);
    search.fill(b"");
    assert!(matches!(search_reader(&mut search, &re), SearchStep::Done));
}
