//! The download engine's decisions, as verified state machines. The caller
//! performs the outside work — issuing the HTTP requests, sleeping, writing
//! the response body to the file — and feeds each outcome back; every
//! decision (which byte range to request next, when to retry, when an item
//! fails, how many transfers may run at once, when the outer retry loop
//! stops) is taken here under contract.

use vstd::prelude::*;

use crate::text::{dec_rep, push_dec};

verus! {

/// The `Range` request-header value for the inclusive byte range `a..=b`.
pub open spec fn range_header_spec(a: u64, b: u64) -> Seq<char> {
    "bytes="@ + dec_rep(a as int) + "-"@ + dec_rep(b as int)
}

/// Render the `Range` header value for `a..=b`.
pub fn range_header(a: u64, b: u64) -> (s: String)
    ensures
        s@ == range_header_spec(a, b),
{
    let mut s = String::new();
    s.append("bytes=");
    push_dec(&mut s, a);
    s.append("-");
    push_dec(&mut s, b);
    proof {
        assert(s@ =~= range_header_spec(a, b));
    }
    s
}

/// Fixed-size byte-range steps over `start..=end`: each step takes
/// `min(buffer_size, remaining)` bytes and yields the header text for them.
#[derive(Debug, Clone, PartialEq, Eq)]
pub struct PartialRangeIter {
    pub start: u64,
    pub end: u64,
    pub buffer_size: u32,
}

impl PartialRangeIter {
    /// The iterator can always step: a positive chunk size, and room to move
    /// `start` past `end`.
    pub open spec fn wf(&self) -> bool {
        self.buffer_size > 0 && self.end < u64::MAX
    }

    /// Bytes the next step takes.
    pub open spec fn step_len(&self) -> int {
        if self.buffer_size as int <= self.end - self.start + 1 {
            self.buffer_size as int
        } else {
            self.end - self.start + 1
        }
    }

    /// Build an iterator over `start..=end`; a zero chunk size is refused.
    pub fn new(start: u64, end: u64, buffer_size: u32) -> (r: Result<Self, &'static str>)
        requires
            end < u64::MAX,
        ensures
            buffer_size == 0 ==> (r matches Err(m) && m@
                == "invalid buffer_size, give a value greater than zero."@),
            buffer_size > 0 ==> (r matches Ok(it) && it.start == start && it.end == end
                && it.buffer_size == buffer_size && it.wf()),
    {
        if buffer_size == 0 {
            return Err("invalid buffer_size, give a value greater than zero.");
        }
        Ok(PartialRangeIter { start, end, buffer_size })
    }

    /// The next byte range: the header text for it, and a progress count of
    /// one less than the bytes taken. Yields nothing once `start` passed
    /// `end`.
    pub fn next(&mut self) -> (r: Option<(String, u64)>)
        requires
            old(self).wf(),
        ensures
            final(self).wf(),
            final(self).end == old(self).end,
            final(self).buffer_size == old(self).buffer_size,
            old(self).start > old(self).end ==> r is None && *final(self) == *old(self),
            old(self).start <= old(self).end ==> (r matches Some(p)
                && final(self).start == old(self).start + old(self).step_len()
                && p.0@ == range_header_spec(
                old(self).start,
                (old(self).start + old(self).step_len() - 1) as u64,
            ) && p.1 == old(self).step_len() - 1),
    {
        if self.start > self.end {
            return None;
        }
        let prev_start = self.start;
        let room = self.end - self.start;
        let step: u64 = if (self.buffer_size as u64) <= room {
            self.buffer_size as u64
        } else {
            room + 1
        };
        proof {
            assert(step == self.step_len()) by {
                if (self.buffer_size as u64) <= room {
                    assert(self.buffer_size as int <= self.end - self.start);
                }
            }
        }
        self.start = self.start + step;
        let header = range_header(prev_start, self.start - 1);
        Some((header, self.start - 1 - prev_start))
    }
}

/// Why a transfer failed.
#[derive(Debug, Clone, Copy, PartialEq, Eq)]
pub enum TransferFailure {
    /// The last chunk request kept answering with this unacceptable status.
    BadStatus(u16),
    /// The last chunk request kept failing before any response arrived.
    Network,
    /// Writing a received chunk to the destination file failed.
    Write,
}

/// Where one item's transfer stands.
#[derive(Debug, Clone, Copy, PartialEq, Eq)]
pub enum TransferState {
    /// Nothing done yet: the destination file is still to be created.
    Init,
    /// The current chunk is to be requested.
    RequestChunk,
    /// A failed attempt is waiting out its backoff.
    RetryWait,
    /// An accepted response is to be streamed to the file.
    WriteChunk,
    /// Every chunk is written.
    Done,
    /// The item failed.
    Failed,
}

/// The per-item chunked download: sequential fixed-size ranged requests,
/// linear backoff on unacceptable statuses, a bounded attempt budget per
/// chunk, and strict in-order writes.
#[derive(Debug, Clone, PartialEq, Eq)]
pub struct ChunkTransfer {
    pub chunk_start: u64,
    pub length: u64,
    pub chunk_size: u32,
    pub attempts: u64,
    pub max_attempts: u64,
    pub base_delay: u64,
    pub state: TransferState,
    pub failure: Option<TransferFailure>,
}

/// A response status the transfer accepts: full or partial content.
pub open spec fn status_ok(status: u16) -> bool {
    status == 200 || status == 206
}

impl ChunkTransfer {
    /// Machine sanity: positive sizes, the attempt counter within its
    /// budget, bounded budget and delay (so the backoff product fits), and
    /// the cursor inside the file while work remains.
    pub open spec fn wf(&self) -> bool {
        &&& self.chunk_size > 0
        &&& self.length >= 1
        &&& self.chunk_start <= self.length
        &&& 1 <= self.attempts <= self.max_attempts
        &&& self.max_attempts <= u32::MAX
        &&& self.base_delay <= u32::MAX
        &&& ((self.state == TransferState::RequestChunk || self.state == TransferState::RetryWait
            || self.state == TransferState::WriteChunk) ==> self.chunk_start < self.length)
    }

    /// Bytes of the current chunk.
    pub open spec fn chunk_len(&self) -> int {
        if self.chunk_size as int <= self.length - self.chunk_start {
            self.chunk_size as int
        } else {
            self.length - self.chunk_start
        }
    }

    /// Set up a transfer of `length` bytes in `chunk_size` steps.
    pub fn new(length: u64, chunk_size: u32, max_attempts: u64, base_delay: u64) -> (m: Self)
        requires
            length >= 1,
            chunk_size > 0,
            1 <= max_attempts <= u32::MAX,
            base_delay <= u32::MAX,
        ensures
            m.wf(),
            m.state == TransferState::Init,
            m.chunk_start == 0,
            m.length == length,
            m.chunk_size == chunk_size,
            m.attempts == 1,
            m.max_attempts == max_attempts,
            m.base_delay == base_delay,
            m.failure is None,
    {
        ChunkTransfer {
            chunk_start: 0,
            length,
            chunk_size,
            attempts: 1,
            max_attempts,
            base_delay,
            state: TransferState::Init,
            failure: None,
        }
    }

    /// The destination file was created (truncating any previous content):
    /// request the first chunk.
    pub fn on_file_created(&mut self)
        requires
            old(self).wf(),
            old(self).state == TransferState::Init,
            old(self).chunk_start < old(self).length,
        ensures
            final(self).wf(),
            *final(self) == (ChunkTransfer { state: TransferState::RequestChunk, ..*old(self) }),
    {
        self.state = TransferState::RequestChunk;
    }

    /// The `Range` header for the chunk to request now.
    pub fn request_header(&self) -> (h: String)
        requires
            self.wf(),
            self.state == TransferState::RequestChunk,
        ensures
            h@ == range_header_spec(
                self.chunk_start,
                (self.chunk_start + self.chunk_len() - 1) as u64,
            ),
    {
        let room = self.length - self.chunk_start;
        let step: u64 = if (self.chunk_size as u64) <= room {
            self.chunk_size as u64
        } else {
            room
        };
        range_header(self.chunk_start, self.chunk_start + step - 1)
    }

    /// What a response status does to the machine: an acceptable status
    /// moves to the write; any other burns one attempt and either waits out
    /// a linear backoff or, with the budget exhausted, fails the item.
    pub open spec fn on_status_spec(m: ChunkTransfer, status: u16) -> ChunkTransfer {
        if status_ok(status) {
            ChunkTransfer { state: TransferState::WriteChunk, ..m }
        } else if m.attempts + 1 > m.max_attempts {
            ChunkTransfer {
                state: TransferState::Failed,
                failure: Some(TransferFailure::BadStatus(status)),
                ..m
            }
        } else {
            ChunkTransfer {
                state: TransferState::RetryWait,
                attempts: (m.attempts + 1) as u64,
                ..m
            }
        }
    }

    /// The backoff before the next try: the attempt counter times the base
    /// delay.
    pub open spec fn retry_delay(&self) -> int {
        self.attempts * self.base_delay
    }

    /// A response to the current chunk request arrived with this status.
    /// Returns the milliseconds to wait before retrying, when a retry is
    /// due.
    pub fn on_status(&mut self, status: u16) -> (wait: Option<u64>)
        requires
            old(self).wf(),
            old(self).state == TransferState::RequestChunk,
        ensures
            final(self).wf(),
            *final(self) == Self::on_status_spec(*old(self), status),
            wait is Some <==> final(self).state == TransferState::RetryWait,
            wait matches Some(ms) ==> ms == final(self).retry_delay(),
    {
        if status == 200 || status == 206 {
            self.state = TransferState::WriteChunk;
            None
        } else if self.attempts + 1 > self.max_attempts {
            self.state = TransferState::Failed;
            self.failure = Some(TransferFailure::BadStatus(status));
            None
        } else {
            self.attempts = self.attempts + 1;
            self.state = TransferState::RetryWait;
            proof {
                assert(self.attempts * self.base_delay <= u64::MAX) by (nonlinear_arith)
                    requires
                        self.attempts <= 0xffff_ffffu64,
                        self.base_delay <= 0xffff_ffffu64,
                ;
            }
            Some(self.attempts * self.base_delay)
        }
    }

    /// What a failure to get any response does: the same retry accounting
    /// as an unacceptable status.
    pub open spec fn on_network_error_spec(m: ChunkTransfer) -> ChunkTransfer {
        if m.attempts + 1 > m.max_attempts {
            ChunkTransfer {
                state: TransferState::Failed,
                failure: Some(TransferFailure::Network),
                ..m
            }
        } else {
            ChunkTransfer {
                state: TransferState::RetryWait,
                attempts: (m.attempts + 1) as u64,
                ..m
            }
        }
    }

    /// The current chunk request failed before any response arrived.
    pub fn on_network_error(&mut self) -> (wait: Option<u64>)
        requires
            old(self).wf(),
            old(self).state == TransferState::RequestChunk,
        ensures
            final(self).wf(),
            *final(self) == Self::on_network_error_spec(*old(self)),
            wait is Some <==> final(self).state == TransferState::RetryWait,
            wait matches Some(ms) ==> ms == final(self).retry_delay(),
    {
        if self.attempts + 1 > self.max_attempts {
            self.state = TransferState::Failed;
            self.failure = Some(TransferFailure::Network);
            None
        } else {
            self.attempts = self.attempts + 1;
            self.state = TransferState::RetryWait;
            proof {
                assert(self.attempts * self.base_delay <= u64::MAX) by (nonlinear_arith)
                    requires
                        self.attempts <= 0xffff_ffffu64,
                        self.base_delay <= 0xffff_ffffu64,
                ;
            }
            Some(self.attempts * self.base_delay)
        }
    }

    /// The backoff elapsed: request the same chunk again.
    pub open spec fn on_wait_done_spec(m: ChunkTransfer) -> ChunkTransfer {
        ChunkTransfer { state: TransferState::RequestChunk, ..m }
    }

    /// The backoff elapsed.
    pub fn on_wait_done(&mut self)
        requires
            old(self).wf(),
            old(self).state == TransferState::RetryWait,
        ensures
            final(self).wf(),
            *final(self) == Self::on_wait_done_spec(*old(self)),
    {
        self.state = TransferState::RequestChunk;
    }

    /// The chunk was written: advance past it, reset the attempt budget,
    /// and either request the next chunk or finish.
    pub fn on_written(&mut self)
        requires
            old(self).wf(),
            old(self).state == TransferState::WriteChunk,
        ensures
            final(self).wf(),
            final(self).chunk_start == old(self).chunk_start + old(self).chunk_len(),
            final(self).length == old(self).length,
            final(self).chunk_size == old(self).chunk_size,
            final(self).max_attempts == old(self).max_attempts,
            final(self).base_delay == old(self).base_delay,
            final(self).attempts == 1,
            final(self).failure == old(self).failure,
            final(self).state == (if old(self).chunk_start + old(self).chunk_len()
                == old(self).length {
                TransferState::Done
            } else {
                TransferState::RequestChunk
            }),
    {
        let room = self.length - self.chunk_start;
        let step: u64 = if (self.chunk_size as u64) <= room {
            self.chunk_size as u64
        } else {
            room
        };
        self.chunk_start = self.chunk_start + step;
        self.attempts = 1;
        if self.chunk_start == self.length {
            self.state = TransferState::Done;
        } else {
            self.state = TransferState::RequestChunk;
        }
    }

    /// Writing the chunk to the destination file failed: the item fails.
    pub fn on_write_error(&mut self)
        requires
            old(self).wf(),
            old(self).state == TransferState::WriteChunk,
        ensures
            final(self).wf(),
            *final(self) == (ChunkTransfer {
                state: TransferState::Failed,
                failure: Some(TransferFailure::Write),
                ..*old(self)
            }),
    {
        self.state = TransferState::Failed;
        self.failure = Some(TransferFailure::Write);
    }
}

/// One failed attempt round: the unacceptable status, then — if the budget
/// allows a retry — the backoff wait.
pub open spec fn bad_round(m: ChunkTransfer, status: u16) -> ChunkTransfer
    recommends
        !status_ok(status),
{
    let m1 = ChunkTransfer::on_status_spec(m, status);
    if m1.state == TransferState::RetryWait {
        ChunkTransfer::on_wait_done_spec(m1)
    } else {
        m1
    }
}

/// The machine after a run of failed rounds with the given statuses.
pub open spec fn after_bad_rounds(m: ChunkTransfer, statuses: Seq<u16>) -> ChunkTransfer
    decreases statuses.len(),
{
    if statuses.len() == 0 {
        m
    } else {
        bad_round(after_bad_rounds(m, statuses.drop_last()), statuses.last())
    }
}

/// Chunk-level retry tolerance: from a fresh chunk request, any run of
/// `k < max_attempts` unacceptable responses leaves the machine requesting
/// the same chunk with `k` attempts burned, and an acceptable response then
/// still reaches the write. One more unacceptable response than the budget
/// allows fails the item instead.
pub proof fn lemma_chunk_retry_tolerance(m: ChunkTransfer, statuses: Seq<u16>, good: u16)
    requires
        m.wf(),
        m.state == TransferState::RequestChunk,
        m.attempts == 1,
        forall|t: int| 0 <= t < statuses.len() ==> !status_ok(#[trigger] statuses[t]),
        status_ok(good),
    ensures
        statuses.len() + 1 <= m.max_attempts ==> ({
            let run = after_bad_rounds(m, statuses);
            &&& run.state == TransferState::RequestChunk
            &&& run.attempts == 1 + statuses.len()
            &&& run.chunk_start == m.chunk_start
            &&& run.max_attempts == m.max_attempts
            &&& ChunkTransfer::on_status_spec(run, good).state == TransferState::WriteChunk
        }),
        statuses.len() == m.max_attempts ==> after_bad_rounds(m, statuses).state
            == TransferState::Failed,
    decreases statuses.len(),
{
    if statuses.len() == 0 {
    } else {
        let pre = statuses.drop_last();
        assert(forall|t: int| 0 <= t < pre.len() ==> pre[t] == statuses[t]);
        lemma_chunk_retry_tolerance(m, pre, good);
        let runp = after_bad_rounds(m, pre);
        let last = statuses.last();
        assert(!status_ok(last)) by {
            assert(last == statuses[statuses.len() - 1]);
        }
        assert(after_bad_rounds(m, statuses) == bad_round(runp, last));
        if statuses.len() + 1 <= m.max_attempts {
            assert(pre.len() + 1 <= m.max_attempts);
            assert(runp.state == TransferState::RequestChunk);
            assert(runp.attempts == 1 + pre.len());
            let m1 = ChunkTransfer::on_status_spec(runp, last);
            assert(m1.state == TransferState::RetryWait);
            assert(bad_round(runp, last) == ChunkTransfer::on_wait_done_spec(m1));
        }
        if statuses.len() == m.max_attempts {
            assert(pre.len() + 1 == m.max_attempts);
            assert(runp.state == TransferState::RequestChunk);
            assert(runp.attempts == m.max_attempts);
            let m1 = ChunkTransfer::on_status_spec(runp, last);
            assert(m1.state == TransferState::Failed);
        }
    }
}

/// A failure recorded during one orchestration pass: the item's ordinal,
/// its destination path, and what went wrong.
#[derive(Debug, Clone)]
pub struct FailureRecord {
    pub item: usize,
    pub dest: String,
    pub error: TransferFailure,
}

/// The bounded-concurrency fan-out over a candidate list: transfers start
/// from the back of the list (the reverse of filter order), at most
/// `n_downloads` may be in flight at once, and finished transfers hand back
/// an optional failure record.
#[derive(Debug)]
pub struct DownloadOrchestrator {
    pub n_downloads: usize,
    pub in_flight: usize,
    pub pending: Vec<usize>,
    pub failures: Vec<FailureRecord>,
}

impl DownloadOrchestrator {
    /// The concurrency bound is respected.
    pub open spec fn wf(&self) -> bool {
        self.n_downloads >= 1 && self.in_flight <= self.n_downloads
    }

    /// An orchestrator over `candidates` with no transfer running.
    pub fn new(candidates: Vec<usize>, n_downloads: usize) -> (o: Self)
        requires
            n_downloads >= 1,
        ensures
            o.wf(),
            o.n_downloads == n_downloads,
            o.in_flight == 0,
            o.pending == candidates,
            o.failures@ == Seq::<FailureRecord>::empty(),
    {
        let failures: Vec<FailureRecord> = Vec::new();
        proof {
            assert(failures@ =~= Seq::<FailureRecord>::empty());
        }
        DownloadOrchestrator { n_downloads, in_flight: 0, pending: candidates, failures }
    }

    /// Start the next transfer if a slot is free and work remains: hands out
    /// the last pending candidate. The count in flight never exceeds
    /// `n_downloads`.
    pub fn try_start(&mut self) -> (r: Option<usize>)
        requires
            old(self).wf(),
        ensures
            final(self).wf(),
            final(self).in_flight <= final(self).n_downloads,
            final(self).n_downloads == old(self).n_downloads,
            final(self).failures == old(self).failures,
            old(self).in_flight < old(self).n_downloads && old(self).pending@.len() > 0 ==> (
            r matches Some(id) && id == old(self).pending@.last() && final(self).pending@
                == old(self).pending@.drop_last() && final(self).in_flight == old(self).in_flight
                + 1),
            !(old(self).in_flight < old(self).n_downloads && old(self).pending@.len() > 0)
                ==> r is None && *final(self) == *old(self),
    {
        if self.in_flight < self.n_downloads && self.pending.len() > 0 {
            let id = self.pending.pop().unwrap();
            self.in_flight = self.in_flight + 1;
            Some(id)
        } else {
            None
        }
    }

    /// A transfer finished; record its failure, if it had one. The count in
    /// flight never exceeds `n_downloads`.
    pub fn finish(&mut self, failure: Option<FailureRecord>)
        requires
            old(self).wf(),
            old(self).in_flight >= 1,
        ensures
            final(self).wf(),
            final(self).in_flight == old(self).in_flight - 1,
            final(self).in_flight <= final(self).n_downloads,
            final(self).n_downloads == old(self).n_downloads,
            final(self).pending == old(self).pending,
            match failure {
                Some(f) => final(self).failures@ == old(self).failures@.push(f),
                None => final(self).failures == old(self).failures,
            },
    {
        self.in_flight = self.in_flight - 1;
        match failure {
            Some(f) => self.failures.push(f),
            None => {},
        }
    }

    /// Whether the pass is over: no work pending, nothing in flight.
    pub fn is_done(&self) -> (r: bool)
        ensures
            r == (self.pending@.len() == 0 && self.in_flight == 0),
    {
        self.pending.len() == 0 && self.in_flight == 0
    }

    /// Hand out the failures collected in this pass.
    pub fn into_failures(self) -> (r: Vec<FailureRecord>)
        ensures
            r == self.failures,
    {
        self.failures
    }
}

/// The outer retry loop's bookkeeping: rounds run so far, against a fixed
/// cap.
#[derive(Debug, Clone, PartialEq, Eq)]
pub struct RetryPolicy {
    pub rounds: u64,
    pub cap: u64,
}

/// The bookkeeping after one more round.
pub open spec fn record_round_spec(p: RetryPolicy) -> RetryPolicy {
    if p.rounds < u64::MAX {
        RetryPolicy { rounds: (p.rounds + 1) as u64, cap: p.cap }
    } else {
        p
    }
}

/// Whether the loop goes on after a round: only while failures remain and
/// the cap is not reached.
pub open spec fn continues_spec(p: RetryPolicy, failures_remaining: int) -> bool {
    failures_remaining > 0 && record_round_spec(p).rounds < p.cap
}

/// The bookkeeping after `k` rounds.
pub open spec fn after_rounds(p: RetryPolicy, k: nat) -> RetryPolicy
    decreases k,
{
    if k == 0 {
        p
    } else {
        record_round_spec(after_rounds(p, (k - 1) as nat))
    }
}

impl RetryPolicy {
    /// A fresh policy with the default cap of ten rounds.
    pub fn new() -> (p: Self)
        ensures
            p.rounds == 0,
            p.cap == 10,
    {
        RetryPolicy { rounds: 0, cap: 10 }
    }

    /// One orchestration pass ended with `failures_remaining` items failed.
    /// Count the round; go on only if failures remain and the cap allows
    /// another round. An empty failure list always stops the loop.
    pub fn record_round(&mut self, failures_remaining: usize) -> (cont: bool)
        requires
            old(self).rounds < old(self).cap,
        ensures
            *final(self) == record_round_spec(*old(self)),
            final(self).rounds == old(self).rounds + 1,
            final(self).cap == old(self).cap,
            cont == continues_spec(*old(self), failures_remaining as int),
            failures_remaining == 0 ==> !cont,
    {
        self.rounds = self.rounds + 1;
        failures_remaining > 0 && self.rounds < self.cap
    }
}

/// The outer retry loop stops within its cap: starting from a fresh policy,
/// by the time `cap` rounds have been recorded the loop no longer
/// continues, whatever failures remain; and a round with no failures left
/// never continues.
pub proof fn lemma_retry_loop_terminates(p: RetryPolicy, k: nat, failures_remaining: int)
    requires
        p.rounds == 0,
        p.cap <= k + 1,
        k < u64::MAX,
    ensures
        !continues_spec(after_rounds(p, k), failures_remaining),
        forall|q: RetryPolicy| !continues_spec(q, 0),
    decreases k,
{
    lemma_after_rounds_count(p, k);
}

proof fn lemma_after_rounds_count(p: RetryPolicy, k: nat)
    requires
        p.rounds == 0,
        k < u64::MAX,
    ensures
        after_rounds(p, k).rounds == k,
        after_rounds(p, k).cap == p.cap,
    decreases k,
{
    if k > 0 {
        lemma_after_rounds_count(p, (k - 1) as nat);
    }
}

} // verus!
