use vstd::prelude::*;
use vstd::arithmetic::div_mod::{lemma_div_is_ordered, lemma_multiply_divide_lt};

verus! {

/// Bytes read from the remote file per step of a transfer.
pub const CHUNK_SIZE: usize = 524288;

/// The percentage reported once `read` of `total` bytes have been copied: the floor of
/// `read * 100 / total`, at most 100. A source of size zero gets no percentage
/// computed at all: it stays at 0, so only the terminal 100 is reported.
pub open spec fn percent(read: nat, total: nat) -> nat {
    if total == 0 {
        0
    } else if read * 100 / total >= 100 {
        100
    } else {
        read * 100 / total
    }
}

/// The number of bytes in `chunks` together.
pub open spec fn total_read(chunks: Seq<u64>) -> nat
    decreases chunks.len(),
{
    if chunks.len() == 0 {
        0
    } else {
        total_read(chunks.drop_last()) + chunks.last() as nat
    }
}

/// The percentages reported while the chunks `chunks` of a source of `total` bytes are
/// copied, before the end of the stream: one each time the percentage changes.
pub open spec fn chunk_reports(total: nat, chunks: Seq<u64>) -> Seq<u8>
    decreases chunks.len(),
{
    if chunks.len() == 0 {
        Seq::empty()
    } else {
        let earlier = chunk_reports(total, chunks.drop_last());
        let before = percent(total_read(chunks.drop_last()), total);
        let now = percent(total_read(chunks), total);
        if now != before {
            earlier.push(now as u8)
        } else {
            earlier
        }
    }
}

/// Every value handed to the progress callback during a transfer, in order: the
/// chunk reports, then 100 at the end of the stream.
pub open spec fn transfer_reports(total: nat, chunks: Seq<u64>) -> Seq<u8> {
    chunk_reports(total, chunks).push(100u8)
}

/// The progress state of one transfer.
pub struct ProgressTracker {
    total: u64,
    read: u64,
    last: u8,
}

impl ProgressTracker {
    pub closed spec fn total(&self) -> nat {
        self.total as nat
    }

    pub closed spec fn read(&self) -> nat {
        self.read as nat
    }

    /// The percentage reported last (0 before any report).
    pub closed spec fn last(&self) -> nat {
        self.last as nat
    }

    pub closed spec fn wf(&self) -> bool {
        self.last as nat == percent(self.read as nat, self.total as nat)
    }

    /// The state at the start of a transfer of a source of `total` bytes.
    pub fn new(total: u64) -> (r: ProgressTracker)
        ensures
            r.wf(),
            r.total() == total,
            r.read() == 0,
            r.last() == 0,
    {
        ProgressTracker { total, read: 0, last: 0 }
    }

    pub fn bytes_read(&self) -> (r: u64)
        ensures
            r == self.read(),
    {
        self.read
    }

    /// Records a chunk of `n` bytes copied; returns the percentage to report where it
    /// differs from the one reported last.
    pub fn record_chunk(&mut self, n: u64) -> (r: Option<u8>)
        requires
            old(self).wf(),
            old(self).read() + n <= u64::MAX,
        ensures
            final(self).wf(),
            final(self).total() == old(self).total(),
            final(self).read() == old(self).read() + n,
            r == (if percent(final(self).read(), final(self).total()) != old(self).last() {
                Some(percent(final(self).read(), final(self).total()) as u8)
            } else {
                None::<u8>
            }),
    {
        self.read = self.read + n;
        let p = percent_now(self.read, self.total);
        if p != self.last {
            self.last = p;
            Some(p)
        } else {
            None
        }
    }

    /// The end of the stream: the value that is always reported last, 100.
    pub fn finish(&mut self) -> (r: u8)
        ensures
            r == 100,
            final(self).read() == old(self).read(),
            final(self).total() == old(self).total(),
            final(self).last() == 100,
    {
        self.last = 100;
        100
    }
}

/// The percentage `percent(read, total)`, computed without overflow.
pub fn percent_now(read: u64, total: u64) -> (r: u8)
    ensures
        r as nat == percent(read as nat, total as nat),
{
    if total == 0 {
        0
    } else {
        let q: u128 = (read as u128) * 100 / (total as u128);
        if q >= 100 {
            100
        } else {
            q as u8
        }
    }
}

/// The values handed to the progress callback for a source of `total` bytes that is
/// read in the chunks `chunks`.
pub fn progress_reports(total: u64, chunks: &Vec<u64>) -> (r: Vec<u8>)
    requires
        total_read(chunks@) <= u64::MAX,
    ensures
        r@ == transfer_reports(total as nat, chunks@),
{
    let mut t = ProgressTracker::new(total);
    let mut r: Vec<u8> = Vec::new();
    let mut i: usize = 0;
    while i < chunks.len()
        invariant
            i <= chunks.len(),
            t.wf(),
            t.total() == total,
            t.read() == total_read(chunks@.take(i as int)),
            total_read(chunks@) <= u64::MAX,
            r@ == chunk_reports(total as nat, chunks@.take(i as int)),
        decreases chunks.len() - i,
    {
        proof {
            assert(chunks@.take(i + 1).drop_last() == chunks@.take(i as int));
            lemma_total_read_prefix(chunks@, i + 1);
        }
        match t.record_chunk(chunks[i]) {
            Some(p) => r.push(p),
            None => {},
        }
        i += 1;
    }
    assert(chunks@.take(chunks.len() as int) == chunks@);
    let last = t.finish();
    r.push(last);
    r
}

proof fn lemma_total_read_prefix(chunks: Seq<u64>, k: int)
    requires
        0 <= k <= chunks.len(),
    ensures
        total_read(chunks.take(k)) <= total_read(chunks),
    decreases chunks.len(),
{
    if k < chunks.len() {
        assert(chunks.drop_last().take(k) == chunks.take(k));
        lemma_total_read_prefix(chunks.drop_last(), k);
    } else {
        assert(chunks.take(k) == chunks);
    }
}


proof fn lemma_percent_ordered(a: nat, b: nat, total: nat)
    requires
        a <= b,
    ensures
        percent(a, total) <= percent(b, total),
        percent(b, total) <= 100,
{
    if total > 0 {
        assert(a * 100 <= b * 100) by (nonlinear_arith)
            requires
                a <= b,
        ;
        lemma_div_is_ordered((a * 100) as int, (b * 100) as int, total as int);
    }
}

proof fn lemma_percent_below_full(read: nat, total: nat)
    requires
        read < total,
    ensures
        percent(read, total) < 100,
{
    assert(read * 100 < total * 100) by (nonlinear_arith)
        requires
            read < total,
    ;
    lemma_multiply_divide_lt((read * 100) as int, total as int, 100);
}

proof fn lemma_chunk_reports_bounded(total: nat, chunks: Seq<u64>)
    ensures
        forall|i: int|
            0 <= i < chunk_reports(total, chunks).len() ==> 1 <= #[trigger] chunk_reports(
                total,
                chunks,
            )[i] <= percent(total_read(chunks), total),
        forall|i: int, j: int|
            0 <= i < j < chunk_reports(total, chunks).len() ==> #[trigger] chunk_reports(
                total,
                chunks,
            )[i] < #[trigger] chunk_reports(total, chunks)[j],
        chunk_reports(total, chunks).len() > 0 ==> chunk_reports(total, chunks).last()
            == percent(total_read(chunks), total),
        percent(total_read(chunks), total) <= 100,
    decreases chunks.len(),
{
    if chunks.len() > 0 {
        let prev = chunks.drop_last();
        lemma_chunk_reports_bounded(total, prev);
        lemma_percent_ordered(total_read(prev), total_read(chunks), total);
        lemma_percent_ordered(0, total_read(prev), total);
        assert(percent(0, total) == 0) by {
            if total > 0 {
                assert(0nat * 100 / total == 0);
            }
        }
    } else {
        lemma_percent_ordered(0, 0, total);
    }
}

/// Progress reports during a transfer never repeat a value nor go back: the reports
/// made per chunk are strictly increasing, each from 1 to 100, and the last value
/// handed to the callback is 100. Where the whole source was not read (a source of
/// size zero, or one that shrank during the copy) the terminal 100 repeats nothing
/// either, so every value handed to the callback is distinct and increasing. Where
/// the last chunk already reached 100, the terminal 100 follows it once more.
pub proof fn lemma_progress_monotone(total: nat, chunks: Seq<u64>)
    ensures
        forall|i: int, j: int|
            0 <= i < j < chunk_reports(total, chunks).len() ==> #[trigger] chunk_reports(
                total,
                chunks,
            )[i] < #[trigger] chunk_reports(total, chunks)[j],
        forall|i: int|
            0 <= i < chunk_reports(total, chunks).len() ==> 1 <= #[trigger] chunk_reports(
                total,
                chunks,
            )[i] <= 100,
        transfer_reports(total, chunks).last() == 100,
        total == 0 || total_read(chunks) < total ==> forall|i: int, j: int|
            0 <= i < j < transfer_reports(total, chunks).len() ==> #[trigger] transfer_reports(
                total,
                chunks,
            )[i] < #[trigger] transfer_reports(total, chunks)[j],
{
    lemma_chunk_reports_bounded(total, chunks);
    let cr = chunk_reports(total, chunks);
    let tr = transfer_reports(total, chunks);
    if total == 0 || total_read(chunks) < total {
        if total > 0 {
            lemma_percent_below_full(total_read(chunks), total);
        }
        assert forall|i: int, j: int| 0 <= i < j < tr.len() implies #[trigger] tr[i] < #[trigger] tr[j] by {
            if j < cr.len() {
                assert(tr[i] == cr[i] && tr[j] == cr[j]);
            } else {
                assert(tr[i] == cr[i]);
            }
        }
    }
}

} // verus!
