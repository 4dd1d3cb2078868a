//! Output that several searches share, in chunks of whole lines.
use crate::lines;
use crate::lines::NEWLINE;
use crate::search;
use crate::search_laws;
use vstd::multiset::*;
use vstd::prelude::*;
use vstd::slice::*;

verus! {

/// From this many buffered bytes on, whole lines are passed on.
pub const CHUNK_BYTES: usize = 64 * 1024;

/// How many bytes of a buffer are to be passed on after a write.
pub open spec fn due(buf: Seq<u8>, threshold: int) -> nat {
    if buf.len() >= threshold {
        lines::whole_lines(buf)
    } else {
        0
    }
}

/// Collects the output of one search and passes it on in chunks.
///
/// A chunk never ends within a line, so that lines stay whole where several
/// writers share an output. What is to be passed on is named first and leaves
/// the buffer once it has been passed on.
pub struct ChunkWriter {
    buf: Vec<u8>,
    threshold: usize,
}

impl ChunkWriter {
    /// What has been written and not been passed on.
    pub closed spec fn buffered(&self) -> Seq<u8> {
        self.buf@
    }

    /// From how many bytes on whole lines are passed on.
    pub closed spec fn threshold(&self) -> nat {
        self.threshold as nat
    }

    pub fn new() -> (w: ChunkWriter)
        ensures
            w.buffered() == Seq::<u8>::empty(),
            w.threshold() == CHUNK_BYTES,
            w.threshold() == 65536,
    {
        Self::with_threshold(CHUNK_BYTES)
    }

    pub fn with_threshold(threshold: usize) -> (w: ChunkWriter)
        ensures
            w.buffered() == Seq::<u8>::empty(),
            w.threshold() == threshold,
    {
        ChunkWriter { buf: Vec::new(), threshold }
    }

    /// How many bytes are to be passed on so that no whole line stays.
    pub fn flush_complete_lines(&self) -> (n: usize)
        ensures
            n == lines::whole_lines(self.buffered()),
            n <= self.buffered().len(),
            n > 0 ==> self.buffered()[n - 1] == 0x0a,
            forall|j: int|
                n <= j < self.buffered().len() ==> #[trigger] self.buffered()[j] != 0x0a,
    {
        let mut n: usize = self.buf.len();
        assert(self.buf@.take(n as int) =~= self.buf@);
        while n > 0 && self.buf[n - 1] != NEWLINE
            invariant
                n <= self.buf@.len(),
                lines::whole_lines(self.buf@.take(n as int)) == lines::whole_lines(self.buf@),
            decreases n,
        {
            assert(self.buf@.take(n as int).drop_last() =~= self.buf@.take(n - 1));
            n -= 1;
        }
        proof {
            lines::law_complete_reaches_to_the_last_newline(self.buf@);
        }
        n
    }

    /// Takes in `data`, and returns how many bytes are now to be passed on.
    pub fn write(&mut self, data: &[u8]) -> (n: usize)
        ensures
            final(self).buffered() == old(self).buffered() + data@,
            final(self).threshold() == old(self).threshold(),
            n == due(final(self).buffered(), final(self).threshold() as int),
            n <= final(self).buffered().len(),
            final(self).buffered().len() < final(self).threshold() ==> n == 0,
            n > 0 ==> final(self).buffered()[n - 1] == 0x0a,
            final(self).buffered().len() >= final(self).threshold() ==> forall|j: int|
                n <= j < final(self).buffered().len() ==> #[trigger] final(self).buffered()[j]
                    != 0x0a,
    {
        self.buf.extend_from_slice(data);
        assert(self.buf@ =~= old(self).buf@ + data@);
        if self.buf.len() >= self.threshold {
            self.flush_complete_lines()
        } else {
            0
        }
    }

    /// How many bytes are to be passed on so that nothing stays.
    pub fn flush(&self) -> (n: usize)
        ensures
            n == self.buffered().len(),
    {
        self.buf.len()
    }

    /// The first `n` bytes that are buffered.
    pub fn front(&self, n: usize) -> (bytes: &[u8])
        requires
            n <= self.buffered().len(),
        ensures
            bytes@ == self.buffered().take(n as int),
    {
        slice_subrange(self.buf.as_slice(), 0, n)
    }

    /// Takes out the first `n` bytes, which have been passed on.
    pub fn passed_on(&mut self, n: usize)
        requires
            n <= old(self).buffered().len(),
        ensures
            final(self).buffered() == old(self).buffered().skip(n as int),
            final(self).threshold() == old(self).threshold(),
    {
        let rest = self.buf.split_off(n);
        assert(rest@ =~= old(self).buf@.skip(n as int));
        self.buf = rest;
    }
}

/// The chunks that are passed on where `writes` come one after the other, and
/// what stays in the buffer.
pub open spec fn passed(buf: Seq<u8>, writes: Seq<Seq<u8>>, threshold: int) -> (
    Seq<Seq<u8>>,
    Seq<u8>,
)
    decreases writes.len(),
{
    if writes.len() == 0 {
        (Seq::empty(), buf)
    } else {
        let full = buf + writes[0];
        let n = due(full, threshold) as int;
        let (chunks, rest) = passed(full.skip(n), writes.drop_first(), threshold);
        (seq![full.take(n)] + chunks, rest)
    }
}

/// The chunks that are passed on where the buffer is flushed in the end.
pub open spec fn all_chunks(writes: Seq<Seq<u8>>, threshold: int) -> Seq<Seq<u8>> {
    let (chunks, rest) = passed(Seq::empty(), writes, threshold);
    chunks + seq![rest]
}

/// Whether some bytes consist of whole lines.
pub open spec fn is_whole(bytes: Seq<u8>) -> bool {
    bytes.len() > 0 ==> bytes.last() == NEWLINE
}

/// Whether all of some chunks consist of whole lines.
pub open spec fn all_whole(chunks: Seq<Seq<u8>>) -> bool {
    forall|i: int| 0 <= i < chunks.len() ==> is_whole(#[trigger] chunks[i])
}

/// Nothing is lost and nothing comes out of order: what has been passed on and
/// what stays is what has been written.
pub proof fn law_nothing_is_lost(buf: Seq<u8>, writes: Seq<Seq<u8>>, threshold: int)
    ensures
        search::joined(passed(buf, writes, threshold).0) + passed(buf, writes, threshold).1 == buf
            + search::joined(writes),
    decreases writes.len(),
{
    if writes.len() == 0 {
        assert(search::joined(Seq::<Seq<u8>>::empty()) + buf =~= buf + search::joined(writes));
    } else {
        let full = buf + writes[0];
        let n = due(full, threshold) as int;
        lines::lemma_whole_lines(full);
        let later = writes.drop_first();
        law_nothing_is_lost(full.skip(n), later, threshold);
        let (chunks, rest) = passed(full.skip(n), later, threshold);
        assert((seq![full.take(n)] + chunks).drop_first() =~= chunks);
        assert(full.take(n) + search::joined(chunks) + rest =~= full.take(n) + (search::joined(
            chunks,
        ) + rest));
        assert(full.take(n) + (full.skip(n) + search::joined(later)) =~= buf + (writes[0]
            + search::joined(later)));
    }
}

/// A chunk that is passed on before the flush never ends within a line.
pub proof fn law_chunks_are_whole_lines(buf: Seq<u8>, writes: Seq<Seq<u8>>, threshold: int)
    ensures
        all_whole(passed(buf, writes, threshold).0),
    decreases writes.len(),
{
    if writes.len() > 0 {
        let full = buf + writes[0];
        let n = due(full, threshold) as int;
        lines::lemma_whole_lines(full);
        law_chunks_are_whole_lines(full.skip(n), writes.drop_first(), threshold);
        let (chunks, rest) = passed(full.skip(n), writes.drop_first(), threshold);
        let all = seq![full.take(n)] + chunks;
        assert forall|i: int| 0 <= i < all.len() implies is_whole(#[trigger] all[i]) by {
            if i > 0 {
                assert(all[i] == chunks[i - 1]);
            }
        }
    }
}

/// The buffer does not grow with the output: once it holds as much as the
/// threshold, it holds no whole line.
pub proof fn law_buffer_stays_small(buf: Seq<u8>, writes: Seq<Seq<u8>>, threshold: int)
    requires
        buf.len() < threshold || lines::one_line(buf),
    ensures
        ({
            let rest = passed(buf, writes, threshold).1;
            rest.len() < threshold || lines::one_line(rest)
        }),
    decreases writes.len(),
{
    if writes.len() > 0 {
        let full = buf + writes[0];
        let n = due(full, threshold) as int;
        lines::lemma_whole_lines(full);
        law_buffer_stays_small(full.skip(n), writes.drop_first(), threshold);
    }
}

/// Output that stays below the threshold comes out in one piece, at the flush.
pub proof fn law_small_output_stays_together(buf: Seq<u8>, writes: Seq<Seq<u8>>, threshold: int)
    requires
        buf.len() + search::joined(writes).len() < threshold,
    ensures
        ({
            let (chunks, rest) = passed(buf, writes, threshold);
            &&& forall|i: int| 0 <= i < chunks.len() ==> (#[trigger] chunks[i]).len() == 0
            &&& rest == buf + search::joined(writes)
        }),
    decreases writes.len(),
{
    if writes.len() == 0 {
        assert(buf + search::joined(writes) =~= buf);
    } else {
        let full = buf + writes[0];
        let later = writes.drop_first();
        assert(full.skip(0) =~= full);
        law_small_output_stays_together(full, later, threshold);
        let (chunks, rest) = passed(full, later, threshold);
        let all = seq![full.take(0)] + chunks;
        assert(passed(buf, writes, threshold) == (all, rest));
        assert forall|i: int| 0 <= i < all.len() implies (#[trigger] all[i]).len() == 0 by {
            if i > 0 {
                assert(all[i] == chunks[i - 1]);
            }
        }
        assert(full + search::joined(later) =~= buf + search::joined(writes));
    }
}

proof fn lemma_joined_add(a: Seq<Seq<u8>>, b: Seq<Seq<u8>>)
    ensures
        search::joined(a + b) == search::joined(a) + search::joined(b),
    decreases a.len(),
{
    if a.len() == 0 {
        assert(a + b =~= b);
        assert(search::joined(a) + search::joined(b) =~= search::joined(b));
    } else {
        assert((a + b).drop_first() =~= a.drop_first() + b);
        lemma_joined_add(a.drop_first(), b);
        assert(a[0] + (search::joined(a.drop_first()) + search::joined(b)) =~= search::joined(a)
            + search::joined(b));
    }
}

/// Whole lines stay as they are in front of other lines.
proof fn lemma_lines_add(a: Seq<u8>, b: Seq<u8>)
    requires
        is_whole(a),
    ensures
        lines::lines(a + b) == lines::lines(a) + lines::lines(b),
    decreases a.len(),
{
    if a.len() == 0 {
        assert(a + b =~= b);
        assert(lines::lines(a) + lines::lines(b) =~= lines::lines(b));
    } else {
        lines::lemma_first_newline(a);
        let i = lines::first_newline(a);
        assert(a[a.len() - 1] == NEWLINE);
        let rest = a.skip(i + 1);
        assert forall|j: int| 0 <= j < i implies #[trigger] (a + b)[j] != NEWLINE by {
            assert(a[j] != NEWLINE);
        }
        lines::lemma_first_newline_is(a + b, i);
        assert((a + b).skip(i + 1) =~= rest + b);
        assert((a + b).subrange(0, i) =~= a.subrange(0, i));
        assert(rest.len() > 0 ==> rest.last() == a.last());
        lemma_lines_add(rest, b);
        assert(seq![a.subrange(0, i)] + (lines::lines(rest) + lines::lines(b)) =~= (seq![
            a.subrange(0, i),
        ] + lines::lines(rest)) + lines::lines(b));
    }
}

pub proof fn lemma_whole_joined(chunks: Seq<Seq<u8>>)
    requires
        all_whole(chunks),
    ensures
        is_whole(search::joined(chunks)),
    decreases chunks.len(),
{
    if chunks.len() > 0 {
        let rest = chunks.drop_first();
        assert forall|i: int| 0 <= i < rest.len() implies is_whole(#[trigger] rest[i]) by {
            assert(rest[i] == chunks[i + 1]);
        }
        lemma_whole_joined(rest);
        assert(is_whole(chunks[0]));
        assert(search::joined(rest).len() == 0 ==> search::joined(chunks) =~= chunks[0]);
    }
}

/// The lines in some chunks, however often each occurs.
pub open spec fn line_bag(chunks: Seq<Seq<u8>>) -> Multiset<Seq<u8>> {
    lines::lines(search::joined(chunks)).to_multiset()
}

proof fn lemma_bag_add(a: Seq<Seq<u8>>, b: Seq<Seq<u8>>)
    requires
        all_whole(a),
    ensures
        line_bag(a + b) == line_bag(a).add(line_bag(b)),
{
    lemma_joined_add(a, b);
    lemma_whole_joined(a);
    lemma_lines_add(search::joined(a), search::joined(b));
    vstd::seq_lib::lemma_multiset_commutative(
        lines::lines(search::joined(a)),
        lines::lines(search::joined(b)),
    );
}

/// In which order chunks of whole lines are passed on has no effect on which
/// lines come out and how often.
pub proof fn law_order_of_chunks(a: Seq<Seq<u8>>, b: Seq<Seq<u8>>)
    requires
        all_whole(a),
        a.to_multiset() == b.to_multiset(),
    ensures
        line_bag(a) == line_bag(b),
    decreases a.len(),
{
    a.to_multiset_ensures();
    b.to_multiset_ensures();
    assert(a.len() == b.len());
    if a.len() == 0 {
        assert(a =~= b);
    } else {
        let first = a[0];
        assert(a.to_multiset().contains(first));
        assert(b.contains(first));
        let k = b.index_of(first);
        assert(b[k] == first);
        let rest = a.drop_first();
        let other = b.remove(k);
        let front = b.take(k);
        let back = b.skip(k + 1);
        assert(a.remove(0) =~= rest);
        assert(rest.to_multiset() == other.to_multiset()) by {
            assert(rest.to_multiset() =~= a.to_multiset().remove(first));
            assert(other.to_multiset() =~= b.to_multiset().remove(first));
        }
        assert forall|i: int| 0 <= i < rest.len() implies is_whole(#[trigger] rest[i]) by {
            assert(rest[i] == a[i + 1]);
        }
        assert forall|i: int| 0 <= i < b.len() implies is_whole(#[trigger] b[i]) by {
            assert(b.contains(b[i]));
            assert(a.to_multiset().contains(b[i]));
            assert(a.contains(b[i]));
        }
        law_order_of_chunks(rest, other);
        assert(is_whole(a[0]));
        assert(all_whole(seq![first]));
        assert(all_whole(front));
        assert(a =~= seq![first] + rest);
        assert(b =~= front + (seq![first] + back));
        assert(other =~= front + back);
        lemma_bag_add(seq![first], rest);
        lemma_bag_add(front, seq![first] + back);
        lemma_bag_add(seq![first], back);
        lemma_bag_add(front, back);
        assert(line_bag(a) =~= line_bag(b));
    }
}

/// The chunks of several searches, one search after the other.
pub open spec fn chunks_of(searches: Seq<Seq<Seq<u8>>>, threshold: int) -> Seq<Seq<u8>>
    decreases searches.len(),
{
    if searches.len() == 0 {
        Seq::empty()
    } else {
        all_chunks(searches[0], threshold) + chunks_of(searches.drop_first(), threshold)
    }
}

/// All that several searches write, one search after the other.
pub open spec fn written(searches: Seq<Seq<Seq<u8>>>) -> Seq<u8>
    decreases searches.len(),
{
    if searches.len() == 0 {
        Seq::empty()
    } else {
        search::joined(searches[0]) + written(searches.drop_first())
    }
}

proof fn lemma_chunks_of(searches: Seq<Seq<Seq<u8>>>, threshold: int)
    requires
        forall|i: int| 0 <= i < searches.len() ==> is_whole(search::joined(#[trigger] searches[i])),
    ensures
        all_whole(chunks_of(searches, threshold)),
        search::joined(chunks_of(searches, threshold)) == written(searches),
    decreases searches.len(),
{
    if searches.len() > 0 {
        let writes = searches[0];
        let later = searches.drop_first();
        assert forall|i: int| 0 <= i < later.len() implies is_whole(
            search::joined(#[trigger] later[i]),
        ) by {
            assert(later[i] == searches[i + 1]);
        }
        lemma_chunks_of(later, threshold);
        law_chunks_are_whole_lines(Seq::empty(), writes, threshold);
        law_nothing_is_lost(Seq::empty(), writes, threshold);
        let (chunks, rest) = passed(Seq::empty(), writes, threshold);
        let mine = all_chunks(writes, threshold);
        let more = chunks_of(later, threshold);
        assert(seq![rest].drop_first() =~= Seq::<Seq<u8>>::empty());
        assert(search::joined(seq![rest]) =~= rest) by {
            reveal_with_fuel(search::joined, 2);
        }
        lemma_joined_add(chunks, seq![rest]);
        assert(search::joined(mine) =~= search::joined(writes));
        assert(is_whole(search::joined(writes)));
        assert(rest.len() > 0 ==> rest.last() == search::joined(mine).last());
        lemma_joined_add(mine, more);
        assert forall|i: int| 0 <= i < (mine + more).len() implies is_whole(
            #[trigger] (mine + more)[i],
        ) by {
            if i < chunks.len() {
                assert((mine + more)[i] == chunks[i]);
            } else if i >= mine.len() {
                assert((mine + more)[i] == more[i - mine.len()]);
            }
        }
    }
}

/// Searches that print whole lines and share an output print the same lines,
/// each as often, as when they run one after the other, in whichever order their
/// chunks come out.
pub proof fn law_shared_output_has_the_same_lines(
    searches: Seq<Seq<Seq<u8>>>,
    threshold: int,
    chunks: Seq<Seq<u8>>,
)
    requires
        forall|i: int| 0 <= i < searches.len() ==> is_whole(search::joined(#[trigger] searches[i])),
        chunks.to_multiset() == chunks_of(searches, threshold).to_multiset(),
    ensures
        line_bag(chunks) == lines::lines(written(searches)).to_multiset(),
{
    lemma_chunks_of(searches, threshold);
    law_order_of_chunks(chunks_of(searches, threshold), chunks);
}

/// After a write nothing is to be passed on below the threshold. From it on,
/// everything up to the last byte 0x0a is, and nothing behind it. The threshold is
/// 65536 bytes unless another one is asked for.
pub proof fn law_bytes_due_after_a_write(buf: Seq<u8>, threshold: int)
    ensures
        CHUNK_BYTES == 65536,
        ({
            let n = due(buf, threshold) as int;
            &&& n <= buf.len()
            &&& buf.len() < threshold ==> n == 0
            &&& n > 0 ==> buf[n - 1] == 0x0a
            &&& buf.len() >= threshold ==> forall|j: int|
                n <= j < buf.len() ==> #[trigger] buf[j] != 0x0a
        }),
{
    lines::law_complete_reaches_to_the_last_newline(buf);
}

/// The lines in some chunks are those of all their bytes, whatever is in which
/// chunk.
pub proof fn law_lines_in_chunks(chunks: Seq<Seq<u8>>)
    ensures
        line_bag(chunks) == lines::lines(chunks.flatten()).to_multiset(),
        is_whole(chunks.flatten()) <==> chunks.flatten().len() == 0 || chunks.flatten().last()
            == 0x0a,
{
    search_laws::law_joined_chunks_follow_each_other(chunks);
}

} // verus!
