use fastgrep_rs::output::{split_visible, Printer};
use fastgrep_rs::pattern::Matcher;

#[test]
fn split_visible_keeps_short_lines() {
    assert_eq!(split_visible("hello", 250), ("hello", 0));
    assert_eq!(split_visible("hello", 0), ("hello", 0));
}

#[test]
fn split_visible_cuts_by_chars() {
    // Characters of several bytes stay whole.
    let line = "あ".repeat(300);
    let (visible, truncated) = split_visible(&line, 250);
    assert_eq!(visible, "あ".repeat(250));
    assert_eq!(truncated, 50);
}

#[test]
fn split_visible_at_the_limit() {
    assert_eq!(split_visible("héllo", 5), ("héllo", 0));
    assert_eq!(split_visible("héllo", 4), ("héll", 1));
    assert_eq!(split_visible("héllo", 1), ("h", 4));
    assert_eq!(split_visible("", 3), ("", 0));
}

/// One match as it is printed.
fn render(printer: &Printer, text: &str, max_columns: usize, pat: &str) -> String {
    let re = Matcher::new(pat, false).unwrap();
    let mut buf = Vec::new();
    printer.print_match(&mut buf, "a/b.txt", 3, text, max_columns, &re);
    String::from_utf8(buf).unwrap()
}

#[test]
fn prints_plain_without_color() {
    let out = render(&Printer::new(false), "hello world", 0, "world");
    assert_eq!(out, "a/b.txt:3:hello world\n");
}

#[test]
fn highlights_match_with_color() {
    let out = render(&Printer::new(true), "hello world", 0, "world");
    // Without the codes the line is as it was.
    let stripped = strip_ansi(&out);
    assert_eq!(stripped, "a/b.txt:3:hello world\n");
    // There is a code before the match and a reset behind it.
    assert!(out.contains('\u{1b}'));
    assert!(out.contains("\u{1b}[0m"));
    let red_start = "world".to_string();
    assert!(out.contains(&red_start));
}

#[test]
fn highlights_only_within_visible_range() {
    // A match behind the part that is shown is not marked.
    let out = render(&Printer::new(true), "abcdefMATCH", 3, "MATCH");
    let stripped = strip_ansi(&out);
    assert_eq!(stripped, "a/b.txt:3:abc …[+8 chars]\n");
}

#[test]
fn highlights_multiple_matches() {
    let out = render(&Printer::new(true), "a x a x a", 0, "a");
    let stripped = strip_ansi(&out);
    assert_eq!(stripped, "a/b.txt:3:a x a x a\n");
    // Each of the three matches has a reset.
    let resets = out.matches("\u{1b}[0m").count();
    assert!(resets >= 3, "expected >=3 resets, got {resets}: {out:?}");
}

#[test]
fn skips_zero_width_matches() {
    // `^` matches without a width: only the path and the number have resets.
    let out = render(&Printer::new(true), "hello", 0, "^");
    assert_eq!(strip_ansi(&out), "a/b.txt:3:hello\n");
    assert_eq!(out.matches("\u{1b}[0m").count(), 2);
}

#[test]
fn skips_zero_width_but_keeps_real_matches() {
    // Only matches with a width are marked, also where the pattern has others.
    let out = render(&Printer::new(true), "ab", 0, "x*");
    assert_eq!(strip_ansi(&out), "a/b.txt:3:ab\n");
    assert_eq!(out.matches("\u{1b}[0m").count(), 2);
}

/// Takes out all codes of the form `ESC [ ... letter`.
fn strip_ansi(s: &str) -> String {
    let mut out = String::new();
    let mut chars = s.chars();
    while let Some(c) = chars.next() {
        if c == '\u{1b}' {
            for c2 in chars.by_ref() {
                if c2.is_ascii_alphabetic() {
                    break;
                }
            }
        } else {
            out.push(c);
        }
    }
    out
}

#[test]
fn exact_codes_of_a_colored_match() {
    assert_eq!(
        render(&Printer::new(true), "hello world", 0, "world"),
        "\u{1b}[35ma/b.txt\u{1b}[0m:\u{1b}[32m3\u{1b}[0m:hello \u{1b}[1m\u{1b}[31mworld\u{1b}[0m\n"
    );
}

#[test]
fn a_match_is_cut_where_the_shown_part_ends() {
    assert_eq!(
        render(&Printer::new(true), "xMATCHy", 4, "MATCH"),
        "\u{1b}[35ma/b.txt\u{1b}[0m:\u{1b}[32m3\u{1b}[0m:x\u{1b}[1m\u{1b}[31mMAT\u{1b}[0m …[+3 chars]\n"
    );
    assert_eq!(
        render(&Printer::new(false), "xMATCHy", 4, "MATCH"),
        "a/b.txt:3:xMAT …[+3 chars]\n"
    );
}

#[test]
fn zero_width_matches_between_real_ones() {
    let out = render(&Printer::new(true), "axxb", 0, "x*");
    assert_eq!(
        out,
        "\u{1b}[35ma/b.txt\u{1b}[0m:\u{1b}[32m3\u{1b}[0m:a\u{1b}[1m\u{1b}[31mxx\u{1b}[0mb\n"
    );
}

#[test]
fn codes_in_the_text_are_kept_without_color() {
    let out = render(&Printer::new(false), "\u{1b}[31mred\u{1b}[0m", 0, "red");
    assert_eq!(out, "a/b.txt:3:\u{1b}[31mred\u{1b}[0m\n");
}

#[test]
fn no_codes_without_color() {
    for text in ["", "plain", "日本語 text", "tab\tand more"] {
        for columns in [0, 1, 3, 100] {
            assert!(!render(&Printer::new(false), text, columns, "t").contains('\u{1b}'));
        }
    }
}

#[test]
fn color_changes_nothing_but_codes() {
    for text in ["", "plain", "日本語 text text", "ttt", "a\tb"] {
        for columns in [0, 1, 2, 3, 5, 100] {
            for pat in ["t", "t*", "語.", "x?", "[a-z]+", "$"] {
                assert_eq!(
                    strip_ansi(&render(&Printer::new(true), text, columns, pat)),
                    render(&Printer::new(false), text, columns, pat)
                );
            }
        }
    }
}

#[test]
fn a_match_is_one_line() {
    for color in [false, true] {
        for columns in [0, 2, 100] {
            let out = render(&Printer::new(color), "one two", columns, "o");
            assert_eq!(out.matches('\n').count(), 1);
            assert!(out.ends_with('\n'));
        }
    }
}

#[test]
fn matches_are_appended() {
    let re = Matcher::new("b", false).unwrap();
    let printer = Printer::new(false);
    let mut out = b"before\n".to_vec();
    printer.print_match(&mut out, "p", usize::MAX, "abc", 0, &re);
    printer.print_match(&mut out, "p", 10, "b", 0, &re);
    assert_eq!(
        String::from_utf8(out).unwrap(),
        format!("before\np:{}:abc\np:10:b\n", usize::MAX)
    );
}

#[test]
fn given_spans_are_marked() {
    let printer = Printer::new(true);
    let mut out = Vec::new();
    printer.print_spans(&mut out, "p", 1, "abcdef", 4, &vec![(0, 1), (2, 2), (3, 6)]);
    assert_eq!(
        String::from_utf8(out).unwrap(),
        "\u{1b}[35mp\u{1b}[0m:\u{1b}[32m1\u{1b}[0m:\u{1b}[1m\u{1b}[31ma\u{1b}[0mbc\u{1b}[1m\u{1b}[31md\u{1b}[0m …[+2 chars]\n"
    );
}
