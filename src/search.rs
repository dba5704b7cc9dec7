//! The worker side of a search: chunk claims, scanning, cancellation and
//! reconciliation of the smallest hit through shared atomics.
use crate::bigint::{big_add, int_of};
use crate::digits::{contains_seq, decimal, value_contains};
use crate::fib::{calc_fib_x, fib};
use std::sync::atomic::{AtomicBool, AtomicI64, AtomicUsize, Ordering};
use std::sync::Arc;
use vstd::prelude::*;

verus! {

/// The value of the shared best index before any hit.
pub const NOT_FOUND: i64 = -1;

/// F(n) written in decimal contains `needle`.
pub open spec fn fib_has(n: nat, needle: Seq<u8>) -> bool {
    contains_seq(decimal(fib(n)), needle)
}

/// No index in `[lo, hi)` holds the needle.
pub open spec fn no_hit_in(lo: int, hi: int, needle: Seq<u8>) -> bool {
    forall|q: int| lo <= q < hi ==> !#[trigger] fib_has(q as nat, needle)
}

/// Progress of one worker, written by that worker and read by anyone.
pub struct Status {
    pub is_finished: AtomicBool,
    pub place: AtomicI64,
    pub percent: AtomicUsize,
    pub exhausted: AtomicBool,
}

impl Status {
    pub fn new() -> (r: Status) {
        Status {
            is_finished: AtomicBool::new(false),
            place: AtomicI64::new(0),
            percent: AtomicUsize::new(0),
            exhausted: AtomicBool::new(false),
        }
    }
}

/// What a caller holds of a running search: one status per worker, the stop
/// flag and the best index found so far.
pub struct CalcStatus {
    pub status: Vec<Arc<Status>>,
    pub is_stop: Arc<AtomicBool>,
    pub ans: Arc<AtomicI64>,
}

impl CalcStatus {
    /// Asks every worker to leave at its next checkpoint. The flag only ever
    /// goes from false to true, so asking again changes nothing.
    pub fn request_stop(&self) {
        self.is_stop.store(true, Ordering::Relaxed);
    }

    /// The smallest index found so far, or `NOT_FOUND`.
    pub fn best_found_index(&self) -> i64 {
        self.ans.load(Ordering::Relaxed)
    }

    /// Where the search stands.
    pub fn run_state(&self) -> RunState {
        run_state(self.finished_count(), self.status.len())
    }

    /// How many workers have finished.
    pub fn finished_count(&self) -> (r: usize)
        ensures
            r <= self.status@.len(),
    {
        let mut n: usize = 0;
        let mut k: usize = 0;
        while k < self.status.len()
            invariant
                n <= k <= self.status@.len(),
            decreases self.status@.len() - k,
        {
            if self.status[k].is_finished.load(Ordering::Relaxed) {
                n = n + 1;
            }
            k = k + 1;
        }
        n
    }
}

/// Where a search stands, as a front end shows it.
#[derive(PartialEq, Eq, Structural, Clone, Copy, Debug)]
pub enum RunState {
    /// Every worker has finished.
    Stop,
    /// No worker has finished yet.
    Started,
    /// Some workers have finished and some are still running.
    Stopping,
}

/// The state of a search of `workers` workers of which `finished` are done.
pub fn run_state(finished: usize, workers: usize) -> (r: RunState)
    requires
        finished <= workers,
    ensures
        r == (if finished == workers {
            RunState::Stop
        } else if finished == 0 {
            RunState::Started
        } else {
            RunState::Stopping
        }),
{
    if finished == workers {
        RunState::Stop
    } else if finished == 0 {
        RunState::Started
    } else {
        RunState::Stopping
    }
}

/// How the scan of one chunk ended.
pub enum ChunkOutcome {
    /// The needle is at this index, and at no earlier index of the chunk.
    Hit(i64),
    /// No index of the chunk holds the needle.
    Completed,
    /// Left at a checkpoint; the indices before this one were tested.
    Left(i64),
}

/// How a worker ended.
pub enum WorkerExit {
    /// A hit at `at` in the chunk starting at `beg`, the first in that chunk.
    Found { beg: i64, at: i64 },
    /// The chunk starting at `beg` was left with `[beg, at)` tested.
    Left { beg: i64, at: i64 },
    /// Another worker had already found the needle before a new claim.
    Halted,
    /// The index range of `i64` ran out.
    Exhausted,
}

/// The number of steps between two checkpoints of a chunk.
pub open spec fn interval_of(chunk: int) -> int {
    if chunk >= 100 {
        chunk / 100
    } else {
        1
    }
}

/// Steps between checkpoints: a hundredth of the chunk, and at least one.
pub fn checkpoint_interval(chunk: i64) -> (r: i64)
    requires
        chunk >= 1,
    ensures
        r == interval_of(chunk as int),
        r >= 1,
{
    if chunk >= 100 {
        chunk / 100
    } else {
        1
    }
}

/// Percentage shown for a worker `offset` steps into its chunk.
pub fn progress_percent(offset: i64, interval: i64) -> (r: usize)
    requires
        offset >= 0,
        interval >= 1,
    ensures
        r as int == if offset / interval < 100 {
            offset / interval
        } else {
            100
        },
{
    let q = offset / interval;
    if q < 100 {
        q as usize
    } else {
        100
    }
}

/// Whether a worker leaves its chunk at a checkpoint: a stop was requested,
/// or a hit below the chunk's end is already known.
pub fn leave_chunk(stop: bool, found: bool, best: i64, end: i64) -> (r: bool)
    ensures
        r == (stop || (found && 0 <= best && best < end)),
{
    stop || (found && 0 <= best && best < end)
}

/// Whether a hit at `p` improves on the recorded best `now`.
pub fn should_replace(now: i64, p: i64) -> (r: bool)
    ensures
        r == (now < 0 || p < now),
        (if r {
            p
        } else {
            now
        }) == after_hit(now, p),
{
    now < 0 || p < now
}

/// The end of the chunk that starts at `beg`, if the chunk fits in `i64` and
/// starts after `last`, the start of the worker's previous chunk.
pub fn chunk_end(last: i64, beg: i64, chunk: i64) -> (r: Option<i64>)
    requires
        chunk >= 1,
        last >= -1,
    ensures
        r == (if 0 <= beg && last < beg && beg <= i64::MAX - chunk {
            Some((beg + chunk) as i64)
        } else {
            None::<i64>
        }),
{
    if last < beg && beg >= 0 && beg <= i64::MAX - chunk {
        Some(beg + chunk)
    } else {
        None
    }
}

/// The cursor after `k` claims of `chunk` indices each.
pub open spec fn cursor_after(k: nat, chunk: nat) -> int
    decreases k,
{
    if k == 0 {
        0
    } else {
        cursor_after((k - 1) as nat, chunk) + chunk
    }
}

/// The `k`-th claim, in the order the cursor serves them, starts at `k * chunk`.
pub proof fn lemma_cursor_after(k: nat, chunk: nat)
    ensures
        cursor_after(k, chunk) == k * chunk,
    decreases k,
{
    if k > 0 {
        lemma_cursor_after((k - 1) as nat, chunk);
        let km: nat = (k - 1) as nat;
        assert(km * chunk + chunk == k * chunk) by (nonlinear_arith)
            requires
                km + 1 == k,
        ;
        assert(cursor_after(k, chunk) == cursor_after(km, chunk) + chunk);
    } else {
        assert(k * chunk == 0) by (nonlinear_arith)
            requires
                k == 0,
        ;
    }
}

/// The first `count` claims tile `[0, count * chunk)`: each index in it lies in
/// the range of exactly one claim, so the claims are pairwise disjoint and
/// leave no gap.
pub proof fn lemma_claims_tile(chunk: nat, count: nat, p: int)
    requires
        chunk >= 1,
        0 <= p < count * chunk,
    ensures
        exists|k: nat|
            k < count && cursor_after(k, chunk) <= p < #[trigger] cursor_after(k, chunk) + chunk,
        forall|k1: nat, k2: nat|
            cursor_after(k1, chunk) <= p < #[trigger] cursor_after(k1, chunk) + chunk
                && cursor_after(k2, chunk) <= p < #[trigger] cursor_after(k2, chunk) + chunk
                ==> k1 == k2,
{
    let k: nat = (p / chunk as int) as nat;
    lemma_cursor_after(k, chunk);
    assert(k * chunk <= p < k * chunk + chunk) by (nonlinear_arith)
        requires
            k == p / chunk as int,
            chunk >= 1,
            p >= 0,
    ;
    assert(k < count) by (nonlinear_arith)
        requires
            k * chunk <= p,
            p < count * chunk,
            chunk >= 1,
    ;
    assert forall|k1: nat, k2: nat|
        cursor_after(k1, chunk) <= p < #[trigger] cursor_after(k1, chunk) + chunk
            && cursor_after(k2, chunk) <= p < #[trigger] cursor_after(k2, chunk) + chunk
            implies k1 == k2 by {
        lemma_cursor_after(k1, chunk);
        lemma_cursor_after(k2, chunk);
        if k1 < k2 {
            assert(k1 * chunk + chunk <= k2 * chunk) by (nonlinear_arith)
                requires
                    k1 < k2,
            ;
        } else if k2 < k1 {
            assert(k2 * chunk + chunk <= k1 * chunk) by (nonlinear_arith)
                requires
                    k2 < k1,
            ;
        }
    }
}

/// Checkpoints of a chunk fall on the offsets divisible by `interval_of(chunk)`,
/// so from any index the next one is less than that many steps away; and that
/// interval is a hundredth of the chunk, or one step for chunks under a hundred.
pub proof fn lemma_checkpoint_spacing(beg: int, i: int, chunk: int)
    requires
        chunk >= 1,
        beg <= i,
    ensures
        exists|j: int| i <= j < i + interval_of(chunk) && #[trigger] ((j - beg) % interval_of(chunk)) == 0,
        1 <= interval_of(chunk),
        chunk >= 100 ==> interval_of(chunk) == chunk / 100,
{
    let d = interval_of(chunk);
    let r = (i - beg) % d;
    let j = if r == 0 { i } else { i + (d - r) };
    assert((j - beg) % d == 0) by {
        vstd::arithmetic::div_mod::lemma_fundamental_div_mod(i - beg, d);
        assert(i - beg == d * ((i - beg) / d) + r);
        if r != 0 {
            assert(j - beg == d * ((i - beg) / d + 1)) by (nonlinear_arith)
                requires
                    i - beg == d * ((i - beg) / d) + r,
                    j == i + (d - r),
            ;
            vstd::arithmetic::div_mod::lemma_mod_multiples_basic((i - beg) / d + 1, d);
        } else {
            assert(j - beg == d * ((i - beg) / d));
            vstd::arithmetic::div_mod::lemma_mod_multiples_basic((i - beg) / d, d);
        }
    }
}

/// Scan results of adjacent ranges join up: with no hit before `beg` and the
/// first hit of the chunk at `at`, `at` is the first index holding the needle.
pub proof fn lemma_first_occurrence(beg: int, at: int, needle: Seq<u8>)
    requires
        0 <= beg <= at,
        no_hit_in(0, beg, needle),
        no_hit_in(beg, at, needle),
        fib_has(at as nat, needle),
    ensures
        no_hit_in(0, at, needle),
{
}

/// The shared best index after a hit at `p` is recorded over `now`.
pub open spec fn after_hit(now: i64, p: i64) -> i64 {
    if now < 0 || p < now {
        p
    } else {
        now
    }
}

/// Recording two hits, in either order, leaves the smaller of them.
pub proof fn lemma_hits_commute(p1: i64, p2: i64)
    requires
        p1 >= 0,
        p2 >= 0,
    ensures
        after_hit(after_hit(NOT_FOUND, p1), p2) == after_hit(after_hit(NOT_FOUND, p2), p1),
        after_hit(after_hit(NOT_FOUND, p1), p2) == if p1 <= p2 {
            p1
        } else {
            p2
        },
{
}

/// Scans the chunk `[beg, beg + chunk)` for the needle: the pair (F(beg), F(beg + 1))
/// comes from the exponentiator, each later value by one addition. At every
/// checkpoint it publishes its progress and may leave the chunk.
pub fn scan_chunk(
    status: &Status,
    is_find: &AtomicBool,
    is_stop: &AtomicBool,
    found_idx: &AtomicI64,
    needle: &Vec<u8>,
    beg: i64,
    chunk: i64,
) -> (r: ChunkOutcome)
    requires
        0 <= beg,
        1 <= chunk,
        beg + chunk <= i64::MAX,
    ensures
        match r {
            ChunkOutcome::Hit(p) => beg <= p < beg + chunk && fib_has(p as nat, needle@)
                && no_hit_in(beg as int, p as int, needle@),
            ChunkOutcome::Completed => no_hit_in(beg as int, beg + chunk, needle@),
            ChunkOutcome::Left(i) => beg < i <= beg + chunk && (i - 1 - beg) % interval_of(
                chunk as int,
            ) == 0 && no_hit_in(beg as int, i as int, needle@),
        },
{
    let end = beg + chunk;
    let interval = checkpoint_interval(chunk);
    let (mut nxt, mut cur) = calc_fib_x(beg);
    let mut i: i64 = beg;
    while i < end
        invariant
            0 <= beg <= i <= end,
            end == beg + chunk,
            interval == interval_of(chunk as int),
            interval >= 1,
            int_of(cur) == fib(i as nat),
            int_of(nxt) == fib(i as nat + 1),
            no_hit_in(beg as int, i as int, needle@),
        decreases end - i,
    {
        if value_contains(&cur, needle) {
            return ChunkOutcome::Hit(i);
        }
        if (i - beg) % interval == 0 {
            let stop = is_stop.load(Ordering::Relaxed);
            let found = is_find.load(Ordering::Relaxed);
            let best = found_idx.load(Ordering::Relaxed);
            if leave_chunk(stop, found, best, end) {
                return ChunkOutcome::Left(i + 1);
            }
            status.place.store(i, Ordering::Relaxed);
            status.percent.store(progress_percent(i - beg, interval), Ordering::Relaxed);
        }
        let next = big_add(&cur, &nxt);
        let ghost k: nat = i as nat;
        proof {
            assert(fib(k + 2) == fib(k + 1) + fib(k));
        }
        cur = nxt;
        nxt = next;
        i = i + 1;

    }
    ChunkOutcome::Completed
}

/// The order in which values of the shared best index improve: the sentinel
/// first, then ever smaller indices.
pub open spec fn best_rank(v: i64) -> int {
    if v < 0 {
        i64::MAX as int + 1
    } else {
        v as int
    }
}

/// Whether `seen` comes strictly later than `now` in that order.
pub fn improves(seen: i64, now: i64) -> (r: bool)
    ensures
        r == (best_rank(seen) < best_rank(now)),
{
    if now < 0 {
        seen >= 0
    } else {
        0 <= seen && seen < now
    }
}

/// Lowers the shared best index to `p` unless it already holds a smaller
/// index, by a compare-and-swap retry loop. Since every writer only lowers it,
/// each failed exchange observes a strictly better value; a value that is not
/// better ends the loop.
pub fn lower_best(found_idx: &AtomicI64, p: i64)
    requires
        p >= 0,
{
    let mut now = found_idx.load(Ordering::Relaxed);
    while should_replace(now, p)
        decreases best_rank(now),
    {
        match found_idx.compare_exchange(now, p, Ordering::Relaxed, Ordering::Relaxed) {
            Ok(_) => {
                return;
            },
            Err(seen) => {
                if !improves(seen, now) {
                    return;
                }
                now = seen;
            },
        }
    }
}

/// Publishes a hit at `p`: the found flag, the shared best index and the
/// worker's own place.
pub fn record_hit(status: &Status, is_find: &AtomicBool, found_idx: &AtomicI64, p: i64)
    requires
        p >= 0,
{
    is_find.store(true, Ordering::Relaxed);
    lower_best(found_idx, p);
    status.place.store(p, Ordering::Relaxed);
}

/// One worker: claims chunks from the shared cursor and scans them until it
/// finds the needle, sees a hit of another worker, is cancelled, or runs out
/// of indices.
pub fn run_worker(
    status: &Status,
    is_find: &AtomicBool,
    is_stop: &AtomicBool,
    x_start: &AtomicI64,
    found_idx: &AtomicI64,
    needle: &Vec<u8>,
    chunk: i64,
) -> (r: WorkerExit)
    requires
        chunk >= 1,
    ensures
        match r {
            WorkerExit::Found { beg, at } => 0 <= beg <= at < beg + chunk && fib_has(
                at as nat,
                needle@,
            ) && no_hit_in(beg as int, at as int, needle@),
            WorkerExit::Left { beg, at } => 0 <= beg < at <= beg + chunk && no_hit_in(
                beg as int,
                at as int,
                needle@,
            ),
            _ => true,
        },
{
    let mut last: i64 = -1;
    loop
        invariant
            chunk >= 1,
            last >= -1,
        decreases i64::MAX - last,
    {
        if is_find.load(Ordering::Relaxed) {
            return WorkerExit::Halted;
        }
        let beg = x_start.fetch_add(chunk, Ordering::Relaxed);
        match chunk_end(last, beg, chunk) {
            None => {
                status.exhausted.store(true, Ordering::Relaxed);
                return WorkerExit::Exhausted;
            },
            Some(_) => {},
        }
        match scan_chunk(status, is_find, is_stop, found_idx, needle, beg, chunk) {
            ChunkOutcome::Hit(p) => {
                record_hit(status, is_find, found_idx, p);
                return WorkerExit::Found { beg, at: p };
            },
            ChunkOutcome::Left(i) => {
                return WorkerExit::Left { beg, at: i };
            },
            ChunkOutcome::Completed => {
                last = beg;
            },
        }
    }
}

/// The body of a worker thread: runs the worker, then marks it finished.
pub fn search_part(
    result: Arc<Status>,
    is_find: Arc<AtomicBool>,
    is_stop: Arc<AtomicBool>,
    x_start: Arc<AtomicI64>,
    found_idx: Arc<AtomicI64>,
    needle: Arc<Vec<u8>>,
    chunk: i64,
)
    requires
        chunk >= 1,
{
    let _ = run_worker(&*result, &*is_find, &*is_stop, &*x_start, &*found_idx, &*needle, chunk);
    result.is_finished.store(true, Ordering::Relaxed);
}

} // verus!
