//! How bytes fall into lines.
use vstd::prelude::*;

verus! {

pub const NEWLINE: u8 = 0x0a;

pub const CARRIAGE_RETURN: u8 = 0x0d;

/// The place of the first newline, or the length where there is none.
pub open spec fn first_newline(bytes: Seq<u8>) -> int
    decreases bytes.len(),
{
    if bytes.len() == 0 || bytes[0] == NEWLINE {
        0
    } else {
        1 + first_newline(bytes.drop_first())
    }
}

/// Whether no newline occurs.
pub open spec fn one_line(bytes: Seq<u8>) -> bool {
    forall|j: int| 0 <= j < bytes.len() ==> #[trigger] bytes[j] != NEWLINE
}

/// The lines of a complete text, without the newlines that end them. What
/// follows the last newline is a line too, unless it is empty.
pub open spec fn lines(bytes: Seq<u8>) -> Seq<Seq<u8>>
    decreases bytes.len(),
{
    let i = first_newline(bytes);
    if bytes.len() == 0 {
        seq![]
    } else if 0 <= i < bytes.len() {
        seq![bytes.subrange(0, i)] + lines(bytes.skip(i + 1))
    } else {
        seq![bytes]
    }
}

pub proof fn lemma_first_newline(bytes: Seq<u8>)
    ensures
        0 <= first_newline(bytes) <= bytes.len(),
        first_newline(bytes) < bytes.len() ==> bytes[first_newline(bytes)] == NEWLINE,
        forall|j: int| 0 <= j < first_newline(bytes) ==> #[trigger] bytes[j] != NEWLINE,
    decreases bytes.len(),
{
    if bytes.len() > 0 && bytes[0] != NEWLINE {
        lemma_first_newline(bytes.drop_first());
        assert forall|j: int| 0 <= j < first_newline(bytes) implies #[trigger] bytes[j]
            != NEWLINE by {
            if j > 0 {
                assert(bytes[j] == bytes.drop_first()[j - 1]);
            }
        }
    }
}

pub proof fn lemma_first_newline_is(bytes: Seq<u8>, i: int)
    requires
        0 <= i <= bytes.len(),
        i < bytes.len() ==> bytes[i] == NEWLINE,
        forall|j: int| 0 <= j < i ==> #[trigger] bytes[j] != NEWLINE,
    ensures
        first_newline(bytes) == i,
{
    lemma_first_newline(bytes);
    let f = first_newline(bytes);
    if f < i {
        assert(bytes[f] != NEWLINE);
    } else if i < f {
        assert(bytes[i] != NEWLINE);
    }
}

/// How many bytes the whole lines at the beginning of some bytes take.
pub open spec fn whole_lines(bytes: Seq<u8>) -> nat
    decreases bytes.len(),
{
    if bytes.len() == 0 || bytes.last() == NEWLINE {
        bytes.len()
    } else {
        whole_lines(bytes.drop_last())
    }
}

pub proof fn lemma_whole_lines(bytes: Seq<u8>)
    ensures
        whole_lines(bytes) <= bytes.len(),
        whole_lines(bytes) > 0 ==> bytes[whole_lines(bytes) - 1] == NEWLINE,
        one_line(bytes.skip(whole_lines(bytes) as int)),
    decreases bytes.len(),
{
    if bytes.len() > 0 && bytes.last() != NEWLINE {
        let front = bytes.drop_last();
        lemma_whole_lines(front);
        let n = whole_lines(front) as int;
        assert forall|j: int| 0 <= j < bytes.skip(n).len() implies #[trigger] bytes.skip(n)[j]
            != NEWLINE by {
            if j < front.skip(n).len() {
                assert(bytes.skip(n)[j] == front.skip(n)[j]);
            } else {
                assert(bytes.skip(n)[j] == bytes.last());
            }
        }
    }
}

/// The whole lines at the beginning of some bytes.
pub open spec fn complete(bytes: Seq<u8>) -> Seq<u8> {
    bytes.take(whole_lines(bytes) as int)
}

/// A line and its newline stay in front of the whole lines that follow.
pub proof fn lemma_complete_first(line: Seq<u8>, rest: Seq<u8>)
    ensures
        complete(line + seq![NEWLINE] + rest) == line + seq![NEWLINE] + complete(rest),
    decreases rest.len(),
{
    let all = line + seq![NEWLINE] + rest;
    lemma_whole_lines(rest);
    if rest.len() > 0 && rest.last() != NEWLINE {
        let front = rest.drop_last();
        assert(all.drop_last() =~= line + seq![NEWLINE] + front);
        lemma_complete_first(line, front);
        lemma_whole_lines(front);
        lemma_whole_lines(all);
        assert(complete(all) =~= complete(all.drop_last()));
        assert(complete(rest) =~= complete(front));
    } else {
        assert(all.last() == NEWLINE);
        assert(complete(all) =~= all);
        assert(complete(rest) =~= rest);
    }
}

/// A newline after the last line makes no further line.
pub proof fn lemma_last_newline(bytes: Seq<u8>)
    requires
        bytes.len() > 0,
        bytes.last() != NEWLINE,
    ensures
        lines(bytes + seq![NEWLINE]) == lines(bytes),
    decreases bytes.len(),
{
    let i = first_newline(bytes);
    let all = bytes + seq![NEWLINE];
    lemma_first_newline(bytes);
    assert forall|j: int| 0 <= j < i implies #[trigger] all[j] != NEWLINE by {
        assert(bytes[j] != NEWLINE);
    }
    lemma_first_newline_is(all, i);
    assert(all.subrange(0, i) =~= bytes.subrange(0, i));
    if i < bytes.len() {
        let rest = bytes.skip(i + 1);
        assert(all.skip(i + 1) =~= rest + seq![NEWLINE]);
        lemma_last_newline(rest);
    } else {
        assert(all.skip(i + 1) =~= Seq::empty());
        assert(bytes.subrange(0, i) =~= bytes);
        assert(lines(Seq::empty()) =~= Seq::<Seq<u8>>::empty());
        assert(lines(all) =~= seq![bytes]);
    }
}

/// Bytes without a newline hold no whole line.
pub proof fn lemma_complete_none(bytes: Seq<u8>)
    requires
        one_line(bytes),
    ensures
        complete(bytes) == Seq::<u8>::empty(),
{
    lemma_whole_lines(bytes);
}

/// The first line of a text that starts with `line`, which holds no newline,
/// ends at the first newline of what follows.
pub proof fn law_first_line(line: Seq<u8>, rest: Seq<u8>)
    requires
        one_line(line),
    ensures
        ({
            let i = first_newline(rest);
            if i < rest.len() {
                lines(line + rest) == seq![line + rest.take(i)] + lines(rest.skip(i + 1))
            } else {
                &&& one_line(line + rest)
                &&& lines(line + rest) == if line.len() + rest.len() == 0 {
                    seq![]
                } else {
                    seq![line + rest]
                }
            }
        }),
{
    let i = first_newline(rest);
    let all = line + rest;
    lemma_first_newline(rest);
    assert forall|j: int| 0 <= j < line.len() + i implies #[trigger] all[j] != NEWLINE by {
        if j < line.len() {
            assert(line[j] != NEWLINE);
        } else {
            assert(rest[j - line.len()] != NEWLINE);
        }
    }
    lemma_first_newline_is(all, line.len() + i);
    if i < rest.len() {
        assert(all.subrange(0, line.len() + i) =~= line + rest.take(i));
        assert(all.skip(line.len() + i + 1) =~= rest.skip(i + 1));
    }
}

/// A line and its newline come before the lines that follow.
pub proof fn lemma_line_and_rest(line: Seq<u8>, rest: Seq<u8>)
    requires
        one_line(line),
    ensures
        lines(line + seq![NEWLINE] + rest) == seq![line] + lines(rest),
{
    let tail = seq![NEWLINE] + rest;
    lemma_first_newline_is(tail, 0);
    law_first_line(line, tail);
    assert(line + seq![NEWLINE] + rest =~= line + tail);
    assert(line + tail.take(0) =~= line);
    assert(tail.skip(1) =~= rest);
}

/// A line ends at the byte 0x0a: the first newline is the first such byte, and
/// a line that is whole by itself holds none.
pub proof fn law_newline_is_line_feed(bytes: Seq<u8>)
    ensures
        NEWLINE == 0x0a,
        CARRIAGE_RETURN == 0x0d,
        0 <= first_newline(bytes) <= bytes.len(),
        first_newline(bytes) < bytes.len() ==> bytes[first_newline(bytes)] == 0x0a,
        forall|j: int| 0 <= j < first_newline(bytes) ==> #[trigger] bytes[j] != 0x0a,
        one_line(bytes) <==> !bytes.contains(0x0a),
{
    lemma_first_newline(bytes);
    if bytes.contains(0x0a) {
        let j = choose|j: int| 0 <= j < bytes.len() && bytes[j] == 0x0a;
        assert(bytes[j] == NEWLINE);
    }
}

/// The lines of a text hold no byte 0x0a, and with such a byte after each of them
/// they make up the text again. To a text that does not end in one it is added.
pub proof fn law_lines_make_up_the_text(bytes: Seq<u8>)
    ensures
        forall|i: int| 0 <= i < lines(bytes).len() ==> !(#[trigger] lines(bytes)[i]).contains(0x0a),
        lines(bytes).map_values(|line: Seq<u8>| line.push(0x0a)).flatten() == if bytes.len() == 0
            || bytes.last() == 0x0a {
            bytes
        } else {
            bytes.push(0x0a)
        },
    decreases bytes.len(),
{
    let all = lines(bytes);
    let ended = all.map_values(|line: Seq<u8>| line.push(0x0a));
    lemma_first_newline(bytes);
    let i = first_newline(bytes);
    if bytes.len() == 0 {
    } else if i < bytes.len() {
        let rest = bytes.skip(i + 1);
        let later = lines(rest);
        law_lines_make_up_the_text(rest);
        assert(ended.drop_first() =~= later.map_values(|line: Seq<u8>| line.push(0x0a)));
        assert(ended[0] =~= bytes.take(i + 1));
        assert(bytes =~= bytes.take(i + 1) + rest);
        assert(bytes.push(0x0a) =~= bytes.take(i + 1) + rest.push(0x0a));
        assert forall|k: int| 0 <= k < all.len() implies !(#[trigger] all[k]).contains(0x0a) by {
            if k > 0 {
                assert(all[k] == later[k - 1]);
            }
        }
    } else {
        assert(ended.drop_first() =~= Seq::empty());
        assert(ended[0] =~= bytes.push(0x0a));
        assert(ended.flatten() =~= bytes.push(0x0a)) by {
            reveal_with_fuel(Seq::<_>::flatten, 2);
        }
    }
}

/// The whole lines at the beginning of some bytes reach to the last byte 0x0a.
pub proof fn law_complete_reaches_to_the_last_newline(bytes: Seq<u8>)
    ensures
        whole_lines(bytes) <= bytes.len(),
        complete(bytes) == bytes.take(whole_lines(bytes) as int),
        whole_lines(bytes) > 0 ==> bytes[whole_lines(bytes) - 1] == 0x0a,
        forall|j: int| whole_lines(bytes) <= j < bytes.len() ==> #[trigger] bytes[j] != 0x0a,
{
    lemma_whole_lines(bytes);
    let n = whole_lines(bytes) as int;
    assert forall|j: int| n <= j < bytes.len() implies #[trigger] bytes[j] != 0x0a by {
        assert(bytes.skip(n)[j - n] == bytes[j]);
    }
}

/// Where the first newline at or after `from` is, or the length.
pub fn find_newline(bytes: &[u8], from: usize) -> (i: usize)
    requires
        from <= bytes@.len(),
    ensures
        i == from + first_newline(bytes@.skip(from as int)),
        from <= i <= bytes@.len(),
        i < bytes@.len() ==> bytes@[i as int] == NEWLINE,
        i < bytes@.len() ==> bytes@[i as int] == 0x0a,
        forall|j: int| from <= j < i ==> #[trigger] bytes@[j] != 0x0a,
{
    let mut i: usize = from;
    while i < bytes.len() && bytes[i] != NEWLINE
        invariant
            from <= i <= bytes@.len(),
            forall|j: int| from <= j < i ==> #[trigger] bytes@[j] != NEWLINE,
        decreases bytes@.len() - i,
    {
        i += 1;
    }
    proof {
        lemma_first_newline_is(bytes@.skip(from as int), i - from);
    }
    i
}

} // verus!
