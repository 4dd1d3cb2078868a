use fastgrep_rs::chunks::{ChunkWriter, CHUNK_BYTES};

/// An output that several writers share.
struct Shared {
    bytes: Vec<u8>,
}

impl Shared {
    fn pass_on(&mut self, cw: &mut ChunkWriter, n: usize) {
        self.bytes.extend_from_slice(cw.front(n));
        cw.passed_on(n);
    }

    fn write_all(&mut self, cw: &mut ChunkWriter, data: &[u8]) {
        let n = cw.write(data);
        self.pass_on(cw, n);
    }

    fn flush(&mut self, cw: &mut ChunkWriter) {
        let n = cw.flush();
        self.pass_on(cw, n);
    }
}

#[test]
fn chunk_writer_emits_only_whole_lines_until_flush() {
    let mut sink = Shared { bytes: Vec::new() };
    let mut cw = ChunkWriter::with_threshold(8);

    // Below the threshold nothing is passed on.
    sink.write_all(&mut cw, b"aaaa\n");
    assert!(sink.bytes.is_empty());

    // Above it, everything up to the last newline is.
    sink.write_all(&mut cw, b"bbbb\n");
    assert_eq!(&sink.bytes, b"aaaa\nbbbb\n");

    // An incomplete line stays until the flush.
    sink.write_all(&mut cw, b"ccc");
    assert_eq!(&sink.bytes, b"aaaa\nbbbb\n");
    sink.flush(&mut cw);
    assert_eq!(&sink.bytes, b"aaaa\nbbbb\nccc");
}

#[test]
fn chunk_writer_never_splits_a_line() {
    // Without a newline nothing is passed on, even above the threshold.
    let mut sink = Shared { bytes: Vec::new() };
    let mut cw = ChunkWriter::with_threshold(4);

    sink.write_all(&mut cw, b"abcdefgh");
    assert!(sink.bytes.is_empty());
    sink.write_all(&mut cw, b"\n");
    assert_eq!(&sink.bytes, b"abcdefgh\n");
}

#[test]
fn the_threshold_of_a_new_writer() {
    let mut cw = ChunkWriter::new();
    assert_eq!(cw.write(&vec![b'\n'; CHUNK_BYTES - 1]), 0);
    assert_eq!(cw.flush_complete_lines(), CHUNK_BYTES - 1);
    assert_eq!(cw.write(b"x"), CHUNK_BYTES - 1);
    assert_eq!(cw.write(b"\n"), CHUNK_BYTES + 1);
}

#[test]
fn nothing_leaves_the_buffer_before_it_is_passed_on() {
    let mut cw = ChunkWriter::with_threshold(2);
    assert_eq!(cw.write(b"a\nb"), 2);
    assert_eq!(cw.flush(), 3);
    assert_eq!(cw.front(2), b"a\n");
    cw.passed_on(2);
    assert_eq!(cw.flush(), 1);
    assert_eq!(cw.front(1), b"b");
    cw.passed_on(1);
    assert_eq!(cw.flush(), 0);
    assert_eq!(cw.flush_complete_lines(), 0);
}

#[test]
fn nothing_is_lost_and_chunks_are_whole_lines() {
    let writes: [&[u8]; 6] = [b"one\ntwo", b"\n", b"", b"three", b"\nfour\nfi", b"ve\n"];
    let all: Vec<u8> = writes.concat();
    for threshold in 0..30 {
        let mut cw = ChunkWriter::with_threshold(threshold);
        let mut out = Vec::new();
        for data in writes {
            let n = cw.write(data);
            let chunk = cw.front(n);
            assert!(chunk.is_empty() || chunk.ends_with(b"\n"));
            out.extend_from_slice(chunk);
            cw.passed_on(n);
        }
        let n = cw.flush();
        out.extend_from_slice(cw.front(n));
        assert_eq!(out, all);
    }
}

#[test]
fn writers_that_share_an_output_keep_each_others_lines() {
    let mut sink = Shared { bytes: Vec::new() };
    let mut a = ChunkWriter::with_threshold(6);
    let mut b = ChunkWriter::with_threshold(9);
    for i in 0..10 {
        sink.write_all(&mut a, format!("a{i}").as_bytes());
        sink.write_all(&mut b, format!("b{i}\n").as_bytes());
        sink.write_all(&mut a, b"\n");
    }
    sink.flush(&mut b);
    sink.flush(&mut a);
    let text = String::from_utf8(sink.bytes).unwrap();
    let mut lines: Vec<&str> = text.lines().collect();
    lines.sort();
    let mut expected: Vec<String> = Vec::new();
    for name in ["a", "b"] {
        for i in 0..10 {
            expected.push(format!("{name}{i}"));
        }
    }
    assert_eq!(lines, expected);
}

#[test]
fn output_below_the_threshold_stays_together() {
    let mut cw = ChunkWriter::with_threshold(12);
    for data in ["a\n", "bb\n", "c", "cc\n"] {
        let n = cw.write(data.as_bytes());
        assert_eq!(n, 0);
    }
    let n = cw.flush();
    assert_eq!(cw.front(n), b"a\nbb\nccc\n");
}

#[test]
fn the_buffer_stays_small() {
    let mut cw = ChunkWriter::with_threshold(8);
    for i in 0..100 {
        let n = cw.write(format!("{i}\n").as_bytes());
        cw.passed_on(n);
        assert!(cw.flush() < 8);
    }
}
