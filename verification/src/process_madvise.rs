//! Advice to other processes through `process_madvise(2)`.
//!
//! The call accepts many regions at once, so regions go out in batches, with
//! single calls as the fallback. Collapsing aligned 2MB ranges into transparent
//! huge pages recovers TLB efficiency after KSM has unmerged pages.

use vstd::prelude::*;
use vstd::string::StringExecFns;

use crate::madvise;
use crate::madvise::{
    eligible, MadviseResult, Tally, MADV_MERGEABLE, MAX_IOV_BATCH, THP_SIZE,
};
use crate::outside;
use crate::procfs;
use crate::procfs::{MapsEntry, MapsEntryView};
use crate::text;
use crate::text::{signed_text, text_contains};

verus! {

// ---------------------------------------------------------------------------
// Error numbers
// ---------------------------------------------------------------------------

pub const EPERM: i32 = 1;

pub const ESRCH: i32 = 3;

pub const EBADF: i32 = 9;

pub const ENOMEM: i32 = 12;

pub const EINVAL: i32 = 22;

pub const ENOSYS: i32 = 38;

pub open spec fn spec_errno_to_str(errno: int) -> Seq<char> {
    if errno == 1 {
        "EPERM: Operation not permitted"@
    } else if errno == 3 {
        "ESRCH: No such process"@
    } else if errno == 22 {
        "EINVAL: Invalid argument"@
    } else if errno == 12 {
        "ENOMEM: Cannot allocate memory"@
    } else if errno == 9 {
        "EBADF: Bad file descriptor"@
    } else if errno == 38 {
        "ENOSYS: Function not implemented"@
    } else {
        "unknown"@
    }
}

/// Convert errno to human-readable string.
pub fn errno_to_str(errno: i32) -> (r: &'static str)
    ensures
        r@ == spec_errno_to_str(errno as int),
{
    match errno {
        EPERM => "EPERM: Operation not permitted",
        ESRCH => "ESRCH: No such process",
        EINVAL => "EINVAL: Invalid argument",
        ENOMEM => "ENOMEM: Cannot allocate memory",
        EBADF => "EBADF: Bad file descriptor",
        ENOSYS => "ENOSYS: Function not implemented",
        _ => "unknown",
    }
}

/// How a failed system call is reported.
pub open spec fn errno_text(errno: int) -> Seq<char> {
    "errno="@ + text::signed_decimal(errno) + " ("@ + spec_errno_to_str(errno) + ")"@
}

/// How a failed system call is reported.
pub fn errno_message(errno: i32) -> (r: String)
    ensures
        r@ == errno_text(errno as int),
{
    let mut out = String::from_str("errno=");
    out.append(signed_text(errno as i64).as_str());
    out.append(" (");
    out.append(errno_to_str(errno));
    out.append(")");
    out
}

/// What a system call returned: its value, and the error number that counts if
/// the value is negative.
#[derive(Debug, Clone, Copy, PartialEq, Eq, Structural)]
pub struct SyscallReturn {
    pub value: i64,
    pub errno: i32,
}

impl SyscallReturn {
    /// The value of a call that worked, or the report of one that failed.
    pub fn into_result(self) -> (r: Result<u64, String>)
        ensures
            match r {
                Ok(n) => self.value >= 0 && n == self.value,
                Err(e) => self.value < 0 && e@ == errno_text(self.errno as int),
            },
    {
        if self.value < 0 {
            return Err(errno_message(self.errno));
        }
        Ok(self.value as u64)
    }
}

/// What is said of an advice that the call does not take.
pub const MERGEABLE_UNSUPPORTED: &'static str =
    "MADV_MERGEABLE not supported by process_madvise; use ptrace";

/// Advise many regions with one call. MADV_MERGEABLE is refused before the call.
pub fn process_madvise_batch<CallFn: FnOnce() -> SyscallReturn>(advice: i32, call: CallFn) -> (r:
    Result<u64, String>)
    requires
        advice != MADV_MERGEABLE ==> call_requires(call, ()),
    ensures
        if advice == MADV_MERGEABLE {
            r matches Err(e) && e@ == MERGEABLE_UNSUPPORTED@
        } else {
            exists|out: SyscallReturn|
                #[trigger] call_ensures(call, (), out) && match r {
                    Ok(n) => out.value >= 0 && n == out.value,
                    Err(e) => out.value < 0 && e@ == errno_text(out.errno as int),
                }
        },
{
    if advice == MADV_MERGEABLE {
        return Err(String::from_str(MERGEABLE_UNSUPPORTED));
    }
    let out = call();
    out.into_result()
}

/// Advise one region. MADV_MERGEABLE is refused before the call.
pub fn process_madvise_single<CallFn: FnOnce() -> SyscallReturn>(
    advice: i32,
    call: CallFn,
) -> (r: Result<(), String>)
    requires
        advice != MADV_MERGEABLE ==> call_requires(call, ()),
    ensures
        if advice == MADV_MERGEABLE {
            r matches Err(e) && e@ == MERGEABLE_UNSUPPORTED@
        } else {
            exists|out: SyscallReturn|
                #[trigger] call_ensures(call, (), out) && match r {
                    Ok(_) => out.value >= 0,
                    Err(e) => out.value < 0 && e@ == errno_text(out.errno as int),
                }
        },
{
    match process_madvise_batch(advice, call) {
        Ok(_) => Ok(()),
        Err(e) => Err(e),
    }
}

// ---------------------------------------------------------------------------
// Batches
// ---------------------------------------------------------------------------

/// Whether the call for a chunk can give this result and lead from one world to
/// the next.
pub open spec fn may_report<W, BatchFn: Fn(W, &[(u64, usize)]) -> (Result<u64, String>, W)>(
    batch_call: BatchFn,
    chunk: Seq<(u64, usize)>,
    from: W,
    result: Result<u64, String>,
    to: W,
) -> bool {
    exists|s: &[(u64, usize)]|
        s@ == chunk && #[trigger] call_ensures(batch_call, (from, s), (result, to))
}

/// Whether the call for a chunk can fail and lead from one world to the next.
pub open spec fn fails<W, BatchFn: Fn(W, &[(u64, usize)]) -> (Result<u64, String>, W)>(
    batch_call: BatchFn,
    chunk: Seq<(u64, usize)>,
    from: W,
    to: W,
) -> bool {
    exists|e: String| #[trigger] may_report(batch_call, chunk, from, Err(e), to)
}

/// Whether the call for a chunk can fail.
pub open spec fn may_fail<W, BatchFn: Fn(W, &[(u64, usize)]) -> (Result<u64, String>, W)>(
    batch_call: BatchFn,
    chunk: Seq<(u64, usize)>,
) -> bool {
    exists|from: W, to: W| #[trigger] fails(batch_call, chunk, from, to)
}

/// Whether the first regions of a chunk were tried by themselves, each once and in
/// order, and went like that.
pub open spec fn tried<W, SingleFn: Fn(W, u64, usize) -> (Result<(), String>, W)>(
    chunk: Seq<(u64, usize)>,
    single_call: SingleFn,
    outcomes: Seq<Result<(), String>>,
    worlds: Seq<W>,
    from: W,
    to: W,
) -> bool {
    &&& outcomes.len() <= chunk.len()
    &&& outside::is_path(worlds, outcomes.len(), from, to)
    &&& forall|i: int|
        0 <= i < outcomes.len() ==> call_ensures(
            single_call,
            (worlds[i], chunk[i].0, chunk[i].1),
            (#[trigger] outcomes[i], worlds[i + 1]),
        )
}

/// Whether the call for a chunk failed, and then its first regions were tried by
/// themselves and went like that.
pub open spec fn fell_back<
    W,
    BatchFn: Fn(W, &[(u64, usize)]) -> (Result<u64, String>, W),
    SingleFn: Fn(W, u64, usize) -> (Result<(), String>, W),
>(
    chunk: Seq<(u64, usize)>,
    batch_call: BatchFn,
    single_call: SingleFn,
    outcomes: Seq<Result<(), String>>,
    from: W,
    to: W,
) -> bool {
    exists|failed: W, worlds: Seq<W>|
        {
            &&& #[trigger] fails(batch_call, chunk, from, failed)
            &&& #[trigger] tried(chunk, single_call, outcomes, worlds, failed, to)
        }
}

/// How one chunk of a batch went.
pub enum ChunkOutcome {
    /// The call for the whole chunk worked and reported so many bytes.
    Whole(u64),
    /// It failed, and each region was tried by itself.
    Each(Seq<Result<(), String>>),
}

impl ChunkOutcome {
    /// Whether the calls gave this outcome on the way from one world to the other,
    /// as far as it goes: the call for the chunk is made once, and if it fails, the
    /// first regions may have been tried so far.
    pub open spec fn began<
        W,
        BatchFn: Fn(W, &[(u64, usize)]) -> (Result<u64, String>, W),
        SingleFn: Fn(W, u64, usize) -> (Result<(), String>, W),
    >(
        self,
        chunk: Seq<(u64, usize)>,
        batch_call: BatchFn,
        single_call: SingleFn,
        from: W,
        to: W,
    ) -> bool {
        match self {
            ChunkOutcome::Whole(bytes) => may_report(batch_call, chunk, from, Ok(bytes), to),
            ChunkOutcome::Each(outcomes) => fell_back(
                chunk,
                batch_call,
                single_call,
                outcomes,
                from,
                to,
            ),
        }
    }

    /// Whether the calls gave this outcome, for the whole chunk.
    pub open spec fn happened<
        W,
        BatchFn: Fn(W, &[(u64, usize)]) -> (Result<u64, String>, W),
        SingleFn: Fn(W, u64, usize) -> (Result<(), String>, W),
    >(
        self,
        chunk: Seq<(u64, usize)>,
        batch_call: BatchFn,
        single_call: SingleFn,
        from: W,
        to: W,
    ) -> bool {
        &&& self.began(chunk, batch_call, single_call, from, to)
        &&& match self {
            ChunkOutcome::Whole(_) => true,
            ChunkOutcome::Each(outcomes) => outcomes.len() == chunk.len(),
        }
    }

    /// What the outcome adds. All regions of a chunk count as marked when the
    /// call for the chunk worked, even if it reported fewer bytes.
    pub open spec fn add_to(self, tally: Tally, chunk: Seq<(u64, usize)>) -> Tally {
        match self {
            ChunkOutcome::Whole(bytes) => Tally {
                merged: tally.merged + chunk.len(),
                bytes: tally.bytes + bytes as nat,
                ..tally
            },
            ChunkOutcome::Each(outcomes) => tally.each(
                chunk.take(outcomes.len() as int),
                outcomes,
                "process_madvise failed: "@,
            ),
        }
    }
}

/// Where chunk `n` of a batch begins.
pub open spec fn chunk_start(batch: Seq<(u64, usize)>, n: int) -> int {
    if n * MAX_IOV_BATCH <= batch.len() {
        n * MAX_IOV_BATCH
    } else {
        batch.len() as int
    }
}

/// Chunk `n` of a batch.
pub open spec fn chunk_of(batch: Seq<(u64, usize)>, n: int) -> Seq<(u64, usize)> {
    batch.subrange(chunk_start(batch, n), chunk_start(batch, n + 1))
}

/// How many chunks a batch has.
pub open spec fn chunk_count(batch: Seq<(u64, usize)>) -> nat {
    ((batch.len() + MAX_IOV_BATCH - 1) / MAX_IOV_BATCH as int) as nat
}

/// What the first chunks add.
pub open spec fn add_chunks(
    tally: Tally,
    batch: Seq<(u64, usize)>,
    outcomes: Seq<ChunkOutcome>,
) -> Tally
    decreases outcomes.len(),
{
    if outcomes.len() == 0 {
        tally
    } else {
        outcomes.last().add_to(
            add_chunks(tally, batch, outcomes.drop_last()),
            chunk_of(batch, outcomes.len() - 1),
        )
    }
}

/// Whether the chunks of a batch can have gone like that so far, one after the
/// other: all but the last one are done.
pub open spec fn reached<
    W,
    BatchFn: Fn(W, &[(u64, usize)]) -> (Result<u64, String>, W),
    SingleFn: Fn(W, u64, usize) -> (Result<(), String>, W),
>(
    batch: Seq<(u64, usize)>,
    batch_call: BatchFn,
    single_call: SingleFn,
    outcomes: Seq<ChunkOutcome>,
    worlds: Seq<W>,
    from: W,
    to: W,
) -> bool {
    &&& outcomes.len() <= chunk_count(batch)
    &&& outside::is_path(worlds, outcomes.len(), from, to)
    &&& forall|n: int|
        0 <= n < outcomes.len() - 1 ==> (#[trigger] outcomes[n]).happened(
            chunk_of(batch, n),
            batch_call,
            single_call,
            worlds[n],
            worlds[n + 1],
        )
    &&& outcomes.len() > 0 ==> outcomes.last().began(
        chunk_of(batch, outcomes.len() - 1),
        batch_call,
        single_call,
        worlds[outcomes.len() - 1],
        to,
    )
}

/// Whether the first chunks of a batch were sent, each once and in order, and went
/// like that.
pub open spec fn sent<
    W,
    BatchFn: Fn(W, &[(u64, usize)]) -> (Result<u64, String>, W),
    SingleFn: Fn(W, u64, usize) -> (Result<(), String>, W),
>(
    batch: Seq<(u64, usize)>,
    batch_call: BatchFn,
    single_call: SingleFn,
    outcomes: Seq<ChunkOutcome>,
    worlds: Seq<W>,
    from: W,
    to: W,
) -> bool {
    &&& outcomes.len() <= chunk_count(batch)
    &&& outside::is_path(worlds, outcomes.len(), from, to)
    &&& forall|n: int|
        0 <= n < outcomes.len() ==> (#[trigger] outcomes[n]).happened(
            chunk_of(batch, n),
            batch_call,
            single_call,
            worlds[n],
            worlds[n + 1],
        )
}

/// What sending a batch may call: the call for each of its chunks, and the call
/// for a single region of a chunk whose call can fail.
pub open spec fn may_advise<
    W,
    BatchFn: Fn(W, &[(u64, usize)]) -> (Result<u64, String>, W),
    SingleFn: Fn(W, u64, usize) -> (Result<(), String>, W),
>(batch: Seq<(u64, usize)>, batch_call: BatchFn, single_call: SingleFn) -> bool {
    forall|n: int|
        0 <= n < chunk_count(batch) ==> {
            &&& may_be_sent(#[trigger] chunk_of(batch, n), batch_call)
            &&& may_fail(batch_call, chunk_of(batch, n)) ==> may_try_each(
                chunk_of(batch, n),
                single_call,
            )
        }
}

/// Whether the call may be made for a chunk.
pub open spec fn may_be_sent<W, BatchFn: Fn(W, &[(u64, usize)]) -> (Result<u64, String>, W)>(
    chunk: Seq<(u64, usize)>,
    batch_call: BatchFn,
) -> bool {
    forall|s: &[(u64, usize)], w: W|
        s@ == chunk ==> #[trigger] call_requires(batch_call, (w, s))
}

/// Whether each region of a chunk may be tried by itself.
pub open spec fn may_try_each<W, SingleFn: Fn(W, u64, usize) -> (Result<(), String>, W)>(
    chunk: Seq<(u64, usize)>,
    single_call: SingleFn,
) -> bool {
    forall|i: int, w: W|
        0 <= i < chunk.len() ==> #[trigger] call_requires(
            single_call,
            (w, chunk[i].0, chunk[i].1),
        )
}

/// Whether the counters hold a tally.
pub open spec fn countable(tally: Tally) -> bool {
    tally.merged <= usize::MAX && tally.bytes <= u64::MAX
}

/// Whether no way in which the calls can go overflows a counter.
pub open spec fn always_countable<
    W,
    BatchFn: Fn(W, &[(u64, usize)]) -> (Result<u64, String>, W),
    SingleFn: Fn(W, u64, usize) -> (Result<(), String>, W),
>(
    tally: Tally,
    batch: Seq<(u64, usize)>,
    batch_call: BatchFn,
    single_call: SingleFn,
    from: W,
) -> bool {
    forall|outcomes: Seq<ChunkOutcome>, worlds: Seq<W>, to: W| #[trigger]
        reached(batch, batch_call, single_call, outcomes, worlds, from, to) ==> countable(
            add_chunks(tally, batch, outcomes),
        )
}

/// Whether no way in which the calls for a chunk can go overflows a counter.
spec fn chunk_countable<
    W,
    BatchFn: Fn(W, &[(u64, usize)]) -> (Result<u64, String>, W),
    SingleFn: Fn(W, u64, usize) -> (Result<(), String>, W),
>(
    tally: Tally,
    chunk: Seq<(u64, usize)>,
    batch_call: BatchFn,
    single_call: SingleFn,
    from: W,
) -> bool {
    forall|outcome: ChunkOutcome, to: W| #[trigger]
        outcome.began(chunk, batch_call, single_call, from, to) ==> countable(
            outcome.add_to(tally, chunk),
        )
}

/// Tries each region of a chunk whose call failed, which led from world `sent` to
/// the one that is given.
fn apply_each<
    W,
    BatchFn: Fn(W, &[(u64, usize)]) -> (Result<u64, String>, W),
    SingleFn: Fn(W, u64, usize) -> (Result<(), String>, W),
>(
    result: &mut MadviseResult,
    chunk: &[(u64, usize)],
    failed: W,
    single_call: &SingleFn,
    Ghost(batch_call): Ghost<BatchFn>,
    Ghost(sent): Ghost<W>,
) -> (r: (W, Ghost<Seq<Result<(), String>>>))
    requires
        fails(batch_call, chunk@, sent, failed),
        may_try_each(chunk@, *single_call),
        chunk_countable(old(result).tally(), chunk@, batch_call, *single_call, sent),
    ensures
        r.1@.len() == chunk@.len(),
        ChunkOutcome::Each(r.1@).began(chunk@, batch_call, *single_call, sent, r.0),
        final(result).pid == old(result).pid,
        final(result).regions_attempted == old(result).regions_attempted,
        final(result).tally() == old(result).tally().each(
            chunk@,
            r.1@,
            "process_madvise failed: "@,
        ),
{
    let ghost mut outcomes: Seq<Result<(), String>> = Seq::empty();
    let ghost mut worlds: Seq<W> = seq![failed];
    let ghost first = failed;
    let ghost start = old(result).tally();
    let mut now: W = failed;
    let mut i: usize = 0;
    assert(chunk@.take(0) =~= Seq::<(u64, usize)>::empty());
    while i < chunk.len()
        invariant
            i <= chunk.len(),
            fails(batch_call, chunk@, sent, first),
            may_try_each(chunk@, *single_call),
            start == old(result).tally(),
            chunk_countable(start, chunk@, batch_call, *single_call, sent),
            outcomes.len() == i,
            tried(chunk@, *single_call, outcomes, worlds, first, now),
            result.pid == old(result).pid,
            result.regions_attempted == old(result).regions_attempted,
            result.tally() == start.each(
                chunk@.take(i as int),
                outcomes,
                "process_madvise failed: "@,
            ),
        decreases chunk.len() - i,
    {
        let (addr, len) = chunk[i];
        let ghost before = now;
        assert(call_requires(single_call, (before, chunk@[i as int].0, chunk@[i as int].1)));
        let (outcome, next) = single_call(now, addr, len);
        proof {
            let done = outcomes;
            let seen = worlds;
            outcomes = outcomes.push(outcome);
            worlds = worlds.push(next);
            assert(outcomes.drop_last() =~= done);
            assert forall|k: int| 0 <= k < outcomes.len() implies call_ensures(
                single_call,
                (worlds[k], chunk@[k].0, chunk@[k].1),
                (#[trigger] outcomes[k], worlds[k + 1]),
            ) by {
                if k < done.len() {
                    assert(outcomes[k] == done[k]);
                    assert(worlds[k] == seen[k] && worlds[k + 1] == seen[k + 1]);
                }
            }
            assert(tried(chunk@, *single_call, outcomes, worlds, first, next));
            assert(chunk@.take(i + 1).drop_last() =~= chunk@.take(i as int));
            assert(fell_back(chunk@, batch_call, *single_call, outcomes, sent, next));
            assert(ChunkOutcome::Each(outcomes).began(
                chunk@,
                batch_call,
                *single_call,
                sent,
                next,
            ));
        }
        match outcome {
            Ok(_) => {
                result.regions_merged = result.regions_merged + 1;
                result.total_bytes_marked = result.total_bytes_marked + len as u64;
            },
            Err(e) => {
                result.add_error(addr, "process_madvise failed: ", e.as_str());
            },
        }
        now = next;
        i += 1;
    }
    assert(chunk@.take(i as int) =~= chunk@);
    let r = (now, Ghost(outcomes));
    assert(fell_back(chunk@, batch_call, *single_call, r.1@, sent, r.0));
    r
}

/// The calls for one chunk keep the counters in range where those for the whole
/// batch do.
proof fn lemma_chunk_is_countable<
    W,
    BatchFn: Fn(W, &[(u64, usize)]) -> (Result<u64, String>, W),
    SingleFn: Fn(W, u64, usize) -> (Result<(), String>, W),
>(
    tally: Tally,
    batch: Seq<(u64, usize)>,
    batch_call: BatchFn,
    single_call: SingleFn,
    outcomes: Seq<ChunkOutcome>,
    worlds: Seq<W>,
    from: W,
    now: W,
)
    requires
        always_countable(tally, batch, batch_call, single_call, from),
        outcomes.len() < chunk_count(batch),
        sent(batch, batch_call, single_call, outcomes, worlds, from, now),
    ensures
        chunk_countable(
            add_chunks(tally, batch, outcomes),
            chunk_of(batch, outcomes.len() as int),
            batch_call,
            single_call,
            now,
        ),
{
    let chunk = chunk_of(batch, outcomes.len() as int);
    let before = add_chunks(tally, batch, outcomes);
    assert forall|outcome: ChunkOutcome, to: W| #[trigger]
        outcome.began(chunk, batch_call, single_call, now, to) implies countable(
        outcome.add_to(before, chunk),
    ) by {
        let all = outcomes.push(outcome);
        let through = worlds.push(to);
        assert forall|n: int| 0 <= n < all.len() - 1 implies (#[trigger] all[n]).happened(
            chunk_of(batch, n),
            batch_call,
            single_call,
            through[n],
            through[n + 1],
        ) by {
            assert(all[n] == outcomes[n]);
            assert(through[n] == worlds[n] && through[n + 1] == worlds[n + 1]);
        }
        assert(reached(batch, batch_call, single_call, all, through, from, to));
        assert(all.drop_last() =~= outcomes);
    }
}

/// Where a chunk that begins before the end of its batch lies.
proof fn lemma_chunk_bounds(batch: Seq<(u64, usize)>, n: int)
    requires
        0 <= n,
        n * MAX_IOV_BATCH < batch.len(),
    ensures
        n < chunk_count(batch),
        chunk_start(batch, n) == n * MAX_IOV_BATCH,
        chunk_start(batch, n + 1) == (if batch.len() - n * MAX_IOV_BATCH > MAX_IOV_BATCH {
            (n + 1) * MAX_IOV_BATCH
        } else {
            batch.len() as int
        }),
        batch.len() - n * MAX_IOV_BATCH <= MAX_IOV_BATCH ==> n + 1 == chunk_count(batch),
{
}

/// Send a batch in chunks, with one call for each; where that call fails, each
/// region of the chunk is tried by itself, once.
pub fn apply_madvise_batches<
    W,
    BatchFn: Fn(W, &[(u64, usize)]) -> (Result<u64, String>, W),
    SingleFn: Fn(W, u64, usize) -> (Result<(), String>, W),
>(
    result: &mut MadviseResult,
    batch: &[(u64, usize)],
    world: W,
    batch_call: BatchFn,
    single_call: SingleFn,
) -> (r: W)
    requires
        may_advise(batch@, batch_call, single_call),
        always_countable(old(result).tally(), batch@, batch_call, single_call, world),
    ensures
        final(result).pid == old(result).pid,
        final(result).regions_attempted == old(result).regions_attempted,
        exists|outcomes: Seq<ChunkOutcome>, worlds: Seq<W>|
            {
                &&& outcomes.len() == chunk_count(batch@)
                &&& #[trigger] sent(
                    batch@,
                    batch_call,
                    single_call,
                    outcomes,
                    worlds,
                    world,
                    r,
                )
                &&& final(result).tally() == add_chunks(
                    old(result).tally(),
                    batch@,
                    outcomes,
                )
            },
{
    let ghost start = old(result).tally();
    let ghost mut outcomes: Seq<ChunkOutcome> = Seq::empty();
    let ghost mut worlds: Seq<W> = seq![world];
    let ghost from = world;
    let mut now: W = world;
    let mut at: usize = 0;
    while at < batch.len()
        invariant
            at <= batch.len(),
            at < batch.len() ==> at == outcomes.len() * MAX_IOV_BATCH,
            at == batch.len() ==> outcomes.len() == chunk_count(batch@),
            may_advise(batch@, batch_call, single_call),
            start == old(result).tally(),
            always_countable(start, batch@, batch_call, single_call, from),
            result.pid == old(result).pid,
            result.regions_attempted == old(result).regions_attempted,
            result.tally() == add_chunks(start, batch@, outcomes),
            sent(batch@, batch_call, single_call, outcomes, worlds, from, now),
        decreases batch.len() - at,
    {
        let end: usize = if batch.len() - at > MAX_IOV_BATCH {
            at + MAX_IOV_BATCH
        } else {
            batch.len()
        };
        let chunk = &batch[at..end];
        let ghost n = outcomes.len() as int;
        let ghost before = now;
        proof {
            lemma_chunk_bounds(batch@, n);
            assert(chunk@ =~= chunk_of(batch@, n));
            lemma_chunk_is_countable(
                start,
                batch@,
                batch_call,
                single_call,
                outcomes,
                worlds,
                from,
                now,
            );
        }
        let (next, Ghost(outcome)) = apply_chunk(result, chunk, now, &batch_call, &single_call);
        proof {
            let done = outcomes;
            let seen = worlds;
            outcomes = outcomes.push(outcome);
            worlds = worlds.push(next);
            assert(outcomes.drop_last() =~= done);
            assert forall|k: int| 0 <= k < outcomes.len() implies (
            #[trigger] outcomes[k]).happened(
                chunk_of(batch@, k),
                batch_call,
                single_call,
                worlds[k],
                worlds[k + 1],
            ) by {
                if k < done.len() {
                    assert(outcomes[k] == done[k]);
                    assert(worlds[k] == seen[k] && worlds[k + 1] == seen[k + 1]);
                }
            }
        }
        now = next;
        at = end;
    }
    now
}

/// Sends one chunk.
fn apply_chunk<
    W,
    BatchFn: Fn(W, &[(u64, usize)]) -> (Result<u64, String>, W),
    SingleFn: Fn(W, u64, usize) -> (Result<(), String>, W),
>(
    result: &mut MadviseResult,
    chunk: &[(u64, usize)],
    world: W,
    batch_call: &BatchFn,
    single_call: &SingleFn,
) -> (r: (W, Ghost<ChunkOutcome>))
    requires
        may_be_sent(chunk@, *batch_call),
        may_fail(*batch_call, chunk@) ==> may_try_each(chunk@, *single_call),
        chunk_countable(old(result).tally(), chunk@, *batch_call, *single_call, world),
    ensures
        r.1@.happened(chunk@, *batch_call, *single_call, world, r.0),
        final(result).pid == old(result).pid,
        final(result).regions_attempted == old(result).regions_attempted,
        final(result).tally() == r.1@.add_to(old(result).tally(), chunk@),
{
    let ghost start = world;
    let (reply, replied) = batch_call(world, chunk);
    assert(may_report(*batch_call, chunk@, start, reply, replied));
    match reply {
        Ok(bytes) => {
            let ghost whole = ChunkOutcome::Whole(bytes);
            assert(whole.began(chunk@, *batch_call, *single_call, start, replied));
            result.regions_merged = result.regions_merged + chunk.len();
            result.total_bytes_marked = result.total_bytes_marked + bytes;
            (replied, Ghost(whole))
        },
        Err(e) => {
            assert(may_report(*batch_call, chunk@, start, Err(e), replied));
            assert(fails(*batch_call, chunk@, start, replied));
            let (end, each) = apply_each::<W, BatchFn, SingleFn>(
                result,
                chunk,
                replied,
                single_call,
                Ghost(*batch_call),
                Ghost(start),
            );
            assert(chunk@.take(each@.len() as int) =~= chunk@);
            (end, Ghost(ChunkOutcome::Each(each@)))
        },
    }
}

/// Whether the call for a chunk never reports more bytes than the chunk has.
pub open spec fn reports_honestly<W, BatchFn: Fn(W, &[(u64, usize)]) -> (Result<u64, String>, W)>(
    batch: Seq<(u64, usize)>,
    batch_call: BatchFn,
) -> bool {
    forall|n: int, from: W, bytes: u64, to: W|
        0 <= n < chunk_count(batch) && #[trigger] may_report(
            batch_call,
            chunk_of(batch, n),
            from,
            Ok(bytes),
            to,
        ) ==> bytes <= madvise::batch_bytes(chunk_of(batch, n))
}

proof fn lemma_bytes_of_prefix(batch: Seq<(u64, usize)>, lo: int, hi: int)
    requires
        0 <= lo <= hi <= batch.len(),
    ensures
        madvise::batch_bytes(batch.take(hi)) == madvise::batch_bytes(batch.take(lo))
            + madvise::batch_bytes(batch.subrange(lo, hi)),
    decreases hi - lo,
{
    if lo < hi {
        lemma_bytes_of_prefix(batch, lo, hi - 1);
        assert(batch.take(hi).drop_last() =~= batch.take(hi - 1));
        assert(batch.subrange(lo, hi).drop_last() =~= batch.subrange(lo, hi - 1));
    } else {
        assert(batch.subrange(lo, hi) =~= Seq::<(u64, usize)>::empty());
    }
}

proof fn lemma_each_bounds(
    tally: Tally,
    batch: Seq<(u64, usize)>,
    outcomes: Seq<Result<(), String>>,
    what: Seq<char>,
)
    requires
        outcomes.len() == batch.len(),
    ensures
        tally.each(batch, outcomes, what).merged <= tally.merged + batch.len(),
        tally.each(batch, outcomes, what).bytes <= tally.bytes + madvise::batch_bytes(batch),
    decreases batch.len(),
{
    if batch.len() > 0 {
        lemma_each_bounds(tally, batch.drop_last(), outcomes.drop_last(), what);
    }
}

proof fn lemma_reached_bounds<
    W,
    BatchFn: Fn(W, &[(u64, usize)]) -> (Result<u64, String>, W),
    SingleFn: Fn(W, u64, usize) -> (Result<(), String>, W),
>(
    tally: Tally,
    batch: Seq<(u64, usize)>,
    batch_call: BatchFn,
    single_call: SingleFn,
    outcomes: Seq<ChunkOutcome>,
    worlds: Seq<W>,
    from: W,
    to: W,
)
    requires
        reports_honestly(batch, batch_call),
        reached(batch, batch_call, single_call, outcomes, worlds, from, to),
    ensures
        ({
            let end = chunk_start(batch, outcomes.len() as int);
            let sum = add_chunks(tally, batch, outcomes);
            &&& 0 <= end <= batch.len()
            &&& sum.merged <= tally.merged + end
            &&& sum.bytes <= tally.bytes + madvise::batch_bytes(batch.take(end))
        }),
    decreases outcomes.len(),
{
    if outcomes.len() == 0 {
        assert(batch.take(0) =~= Seq::<(u64, usize)>::empty());
    } else {
        let n = outcomes.len() - 1;
        let front = outcomes.drop_last();
        let through = worlds.drop_last();
        assert forall|i: int| 0 <= i < front.len() implies (#[trigger] front[i]).happened(
            chunk_of(batch, i),
            batch_call,
            single_call,
            through[i],
            through[i + 1],
        ) by {
            assert(outcomes[i] == front[i]);
        }
        lemma_reached_bounds(
            tally,
            batch,
            batch_call,
            single_call,
            front,
            through,
            from,
            worlds[n],
        );
        let lo = chunk_start(batch, n);
        let hi = chunk_start(batch, n + 1);
        let chunk = chunk_of(batch, n);
        lemma_bytes_of_prefix(batch, lo, hi);
        match outcomes.last() {
            ChunkOutcome::Whole(bytes) => {
                assert(may_report(batch_call, chunk, worlds[n], Ok(bytes), to));
            },
            ChunkOutcome::Each(each) => {
                assert(each.len() <= chunk.len());
                let k = each.len() as int;
                let before = add_chunks(tally, batch, front);
                lemma_each_bounds(before, chunk.take(k), each, "process_madvise failed: "@);
                lemma_bytes_of_prefix(chunk, k, chunk.len() as int);
                assert(chunk.take(chunk.len() as int) =~= chunk);
            },
        }
    }
}

/// As long as no call reports more bytes than it was asked for, counters with room
/// for the whole batch do not overflow.
pub proof fn law_honest_reports_do_not_overflow<
    W,
    BatchFn: Fn(W, &[(u64, usize)]) -> (Result<u64, String>, W),
    SingleFn: Fn(W, u64, usize) -> (Result<(), String>, W),
>(
    tally: Tally,
    batch: Seq<(u64, usize)>,
    batch_call: BatchFn,
    single_call: SingleFn,
    from: W,
)
    requires
        reports_honestly(batch, batch_call),
        tally.merged + batch.len() <= usize::MAX,
        tally.bytes + madvise::batch_bytes(batch) <= u64::MAX,
    ensures
        always_countable(tally, batch, batch_call, single_call, from),
{
    assert forall|outcomes: Seq<ChunkOutcome>, worlds: Seq<W>, to: W| #[trigger]
        reached(batch, batch_call, single_call, outcomes, worlds, from, to) implies countable(
        add_chunks(tally, batch, outcomes),
    ) by {
        lemma_reached_bounds(
            tally,
            batch,
            batch_call,
            single_call,
            outcomes,
            worlds,
            from,
            to,
        );
        let end = chunk_start(batch, outcomes.len() as int);
        lemma_bytes_of_prefix(batch, end, batch.len() as int);
        assert(batch.take(batch.len() as int) =~= batch);
    }
}

// ---------------------------------------------------------------------------
// MADV_COLLAPSE
// ---------------------------------------------------------------------------

/// Whether a region may be collapsed: eligible, and as large as a huge page.
pub open spec fn is_large(m: MapsEntryView) -> bool {
    madvise::is_eligible(m) && m.spec_size() >= THP_SIZE
}

/// Whether any region may be collapsed.
pub open spec fn has_large(maps: Seq<MapsEntryView>) -> bool {
    exists|i: int| 0 <= i < maps.len() && is_large(#[trigger] maps[i])
}

/// The whole huge pages inside a region: its start is rounded up and its end
/// down. Nothing if that leaves none.
pub open spec fn huge_range(m: MapsEntryView) -> Option<(u64, usize)> {
    let start = (m.start + THP_SIZE - 1) / THP_SIZE as int * THP_SIZE;
    let end = m.end as int / THP_SIZE as int * THP_SIZE;
    if start >= end {
        None
    } else {
        Some((start as u64, (end - start) as usize))
    }
}

/// The ranges to collapse, in order.
pub open spec fn collapse_ranges(maps: Seq<MapsEntryView>) -> Seq<(u64, usize)>
    decreases maps.len(),
{
    if maps.len() == 0 {
        Seq::empty()
    } else {
        let before = collapse_ranges(maps.drop_last());
        match huge_range(maps.last()) {
            Some(range) if is_large(maps.last()) => before.push(range),
            _ => before,
        }
    }
}

/// Whether a failure says that the kernel cannot collapse at all.
pub open spec fn says_unsupported(outcome: Result<(), String>) -> bool {
    outcome matches Err(e) && text::contains_text(e@, "ENOSYS"@)
}

/// How many calls worked.
pub open spec fn successes(outcomes: Seq<Result<(), String>>) -> nat
    decreases outcomes.len(),
{
    if outcomes.len() == 0 {
        0
    } else {
        successes(outcomes.drop_last()) + (if outcomes.last() is Ok {
            1nat
        } else {
            0nat
        })
    }
}

/// Whether the calls for the ranges gave these outcomes: one range after the
/// other is tried, each once, and an unsupported call ends it.
pub open spec fn collapsed_as<W, CollapseFn: Fn(W, i32, u64, usize) -> (Result<(), String>, W)>(
    ranges: Seq<(u64, usize)>,
    fd: i32,
    collapse: CollapseFn,
    outcomes: Seq<Result<(), String>>,
    worlds: Seq<W>,
    from: W,
    to: W,
) -> bool {
    &&& outcomes.len() <= ranges.len()
    &&& outside::is_path(worlds, outcomes.len(), from, to)
    &&& forall|i: int|
        0 <= i < outcomes.len() ==> call_ensures(
            collapse,
            (worlds[i], fd, ranges[i].0, ranges[i].1),
            (#[trigger] outcomes[i], worlds[i + 1]),
        )
    &&& forall|i: int| 0 <= i < outcomes.len() - 1 ==> !says_unsupported(#[trigger] outcomes[i])
    &&& outcomes.len() < ranges.len() ==> outcomes.len() > 0 && says_unsupported(outcomes.last())
}

/// Whether `r` regions of a process were collapsed on the way from one world to the
/// other: the process is opened, the ranges are tried, and then the handle is
/// closed. Without a large region nothing is tried; a process that cannot be opened
/// counts for nothing.
pub open spec fn collapse_result<
    W,
    OpenFn: Fn(W, u32) -> (Result<i32, String>, W),
    CollapseFn: Fn(W, i32, u64, usize) -> (Result<(), String>, W),
    CloseFn: Fn(W, i32) -> W,
>(
    pid: u32,
    maps: Seq<MapsEntryView>,
    open: OpenFn,
    collapse: CollapseFn,
    close: CloseFn,
    from: W,
    r: usize,
    to: W,
) -> bool {
    if has_large(maps) {
        exists|opened: Result<i32, String>, at: W|
            #[trigger] call_ensures(open, (from, pid), (opened, at)) && match opened {
                Err(_) => r == 0 && to == at,
                Ok(fd) => exists|
                    outcomes: Seq<Result<(), String>>,
                    worlds: Seq<W>,
                    tried: W,
                |
                    {
                        &&& #[trigger] collapsed_as(
                            collapse_ranges(maps),
                            fd,
                            collapse,
                            outcomes,
                            worlds,
                            at,
                            tried,
                        )
                        &&& r == successes(outcomes)
                        &&& call_ensures(close, (tried, fd), to)
                    },
            }
    } else {
        r == 0 && to == from
    }
}

fn huge_range_of(m: &MapsEntry) -> (r: Option<(u64, usize)>)
    requires
        m@.is_ordered(),
        m@.spec_size() >= THP_SIZE,
    ensures
        r == huge_range(m@),
{
    let first: u64 = m.start;
    let last: u64 = m.end;
    let raised: u64 = first + (THP_SIZE - 1);
    let start: u64 = raised & !(THP_SIZE - 1);
    let end: u64 = last & !(THP_SIZE - 1);
    assert(raised & !0x1f_ffffu64 == raised / 0x20_0000 * 0x20_0000) by (bit_vector);
    assert(last & !0x1f_ffffu64 == last / 0x20_0000 * 0x20_0000) by (bit_vector);
    if start >= end {
        return None;
    }
    let len: u64 = end - start;
    Some((start, #[verifier::truncate] (len as usize)))
}

/// What collapsing the regions of a process may call: nothing without a large
/// region; else it is opened, ranges are collapsed through the handle that came of
/// it, and that handle is closed.
pub open spec fn may_collapse<
    W,
    OpenFn: Fn(W, u32) -> (Result<i32, String>, W),
    CollapseFn: Fn(W, i32, u64, usize) -> (Result<(), String>, W),
    CloseFn: Fn(W, i32) -> W,
>(
    pid: u32,
    maps: Seq<MapsEntryView>,
    open: OpenFn,
    collapse: CollapseFn,
    close: CloseFn,
) -> bool {
    has_large(maps) ==> {
        &&& forall|w: W| #[trigger] call_requires(open, (w, pid))
        &&& forall|fd: i32|
            (exists|w: W, at: W| #[trigger]
                call_ensures(open, (w, pid), (Ok::<i32, String>(fd), at))) ==> may_use(
                collapse_ranges(maps),
                fd,
                collapse,
                close,
            )
    }
}

/// Whether the ranges may be collapsed through a handle, and the handle closed.
pub open spec fn may_use<
    W,
    CollapseFn: Fn(W, i32, u64, usize) -> (Result<(), String>, W),
    CloseFn: Fn(W, i32) -> W,
>(ranges: Seq<(u64, usize)>, fd: i32, collapse: CollapseFn, close: CloseFn) -> bool {
    &&& forall|n: int, w: W|
        0 <= n < ranges.len() ==> #[trigger] call_requires(
            collapse,
            (w, fd, ranges[n].0, ranges[n].1),
        )
    &&& forall|w: W| #[trigger] call_requires(close, (w, fd))
}

/// Opportunistically collapse memory regions into transparent huge pages.
///
/// `open` opens a handle of the process, `collapse` collapses one range through
/// it, and `close` closes it. Returns the number of regions that were collapsed.
pub fn collapse_regions<
    W,
    OpenFn: Fn(W, u32) -> (Result<i32, String>, W),
    CollapseFn: Fn(W, i32, u64, usize) -> (Result<(), String>, W),
    CloseFn: Fn(W, i32) -> W,
>(
    pid: u32,
    regions: &[MapsEntry],
    world: W,
    open: &OpenFn,
    collapse: &CollapseFn,
    close: &CloseFn,
) -> (r: (usize, W))
    requires
        madvise::eligible_ordered(procfs::maps_view(regions@)),
        may_collapse(pid, procfs::maps_view(regions@), *open, *collapse, *close),
    ensures
        collapse_result(
            pid,
            procfs::maps_view(regions@),
            *open,
            *collapse,
            *close,
            world,
            r.0,
            r.1,
        ),
{
    let ghost maps = procfs::maps_view(regions@);
    let mut ranges: Vec<(u64, usize)> = Vec::new();
    let mut any_large: bool = false;
    let mut i: usize = 0;
    assert(maps.take(0) =~= Seq::<MapsEntryView>::empty());
    while i < regions.len()
        invariant
            i <= regions.len(),
            maps == procfs::maps_view(regions@),
            madvise::eligible_ordered(maps),
            ranges@ == collapse_ranges(maps.take(i as int)),
            any_large == has_large(maps.take(i as int)),
        decreases regions.len() - i,
    {
        let region = &regions[i];
        assert(maps[i as int] == region@);
        proof {
            if madvise::is_eligible(region@) {
                madvise::lemma_eligible_ordered(maps, i as int);
            }
        }
        assert(maps.take(i + 1).drop_last() =~= maps.take(i as int));
        assert(maps.take(i + 1).last() == region@);
        assert forall|k: int| 0 <= k < i implies maps.take(i + 1)[k] == #[trigger] maps.take(
            i as int,
        )[k] by {}
        assert(maps.take(i + 1)[i as int] == region@);
        if eligible(region) && region.size() >= THP_SIZE {
            assert(is_large(maps.take(i + 1)[i as int]));
            any_large = true;
            if let Some(range) = huge_range_of(region) {
                ranges.push(range);
            }
        } else {
            proof {
                if has_large(maps.take(i + 1)) {
                    let k = choose|k: int|
                        0 <= k < maps.take(i + 1).len() && is_large(#[trigger] maps.take(i + 1)[k]);
                    assert(is_large(maps.take(i as int)[k]));
                }
            }
        }
        i += 1;
    }
    assert(maps.take(i as int) =~= maps);
    if !any_large {
        return (0, world);
    }
    let ghost start = world;
    let (opened, at) = open(world, pid);
    assert(call_ensures(open, (start, pid), (opened, at)));
    let fd: i32 = match opened {
        Ok(fd) => fd,
        Err(_) => {
            return (0, at);
        },
    };
    assert(call_ensures(open, (start, pid), (Ok::<i32, String>(fd), at)));
    let ghost mut outcomes: Seq<Result<(), String>> = Seq::empty();
    let ghost mut worlds: Seq<W> = seq![at];
    let ghost first = at;
    let mut now: W = at;
    let mut collapsed: usize = 0;
    let mut n: usize = 0;
    while n < ranges.len()
        invariant_except_break
            n <= ranges.len(),
            may_use(ranges@, fd, *collapse, *close),
            outcomes.len() == n,
            outside::is_path(worlds, n as nat, first, now),
            forall|k: int|
                0 <= k < n ==> call_ensures(
                    collapse,
                    (worlds[k], fd, ranges@[k].0, ranges@[k].1),
                    (#[trigger] outcomes[k], worlds[k + 1]),
                ),
            forall|k: int| 0 <= k < n ==> !says_unsupported(#[trigger] outcomes[k]),
            collapsed == successes(outcomes),
            collapsed <= n,
        ensures
            collapsed_as(ranges@, fd, *collapse, outcomes, worlds, first, now),
            collapsed == successes(outcomes),
        decreases ranges.len() - n,
    {
        let (from, len) = ranges[n];
        let ghost before = now;
        assert(call_requires(
            collapse,
            (before, fd, ranges@[n as int].0, ranges@[n as int].1),
        ));
        let (outcome, next) = collapse(now, fd, from, len);
        proof {
            let done = outcomes;
            let seen = worlds;
            outcomes = outcomes.push(outcome);
            worlds = worlds.push(next);
            assert(outcomes.drop_last() =~= done);
            assert forall|k: int| 0 <= k < outcomes.len() implies call_ensures(
                collapse,
                (worlds[k], fd, ranges@[k].0, ranges@[k].1),
                (#[trigger] outcomes[k], worlds[k + 1]),
            ) by {
                if k < done.len() {
                    assert(outcomes[k] == done[k]);
                    assert(worlds[k] == seen[k] && worlds[k + 1] == seen[k + 1]);
                }
            }
        }
        now = next;
        n += 1;
        match outcome {
            Ok(_) => {
                collapsed = collapsed + 1;
            },
            Err(e) => {
                if text_contains(e.as_str(), "ENOSYS") {
                    break;
                }
            },
        }
    }
    let ghost tried = now;
    let end = close(now, fd);
    assert(call_ensures(close, (tried, fd), end));
    (collapsed, end)
}

/// A range to collapse lies inside its region and consists of whole, aligned huge
/// pages.
pub proof fn law_collapsed_ranges_are_aligned(m: MapsEntryView)
    requires
        m.is_ordered(),
    ensures
        huge_range(m) matches Some((start, len)) ==> {
            &&& m.start <= start
            &&& start % 0x20_0000 == 0
            &&& exists|end: int| start < end <= m.end && #[trigger] (end % 0x20_0000) == 0 && len == (
            end - start) as usize
        },
{
    let start = (m.start + THP_SIZE - 1) / THP_SIZE as int * THP_SIZE;
    let end = m.end as int / THP_SIZE as int * THP_SIZE;
    if start < end {
        assert(end % 0x20_0000 == 0);
    }
}

/// A batch is sent in chunks of 256 entries, only the last of which may have fewer; one
/// behind the other they are the batch, each entry once.
pub proof fn law_chunks_make_up_the_batch(batch: Seq<(u64, usize)>, i: int, n: int)
    ensures
        0 <= i < batch.len() ==> {
            &&& i / 256 < chunk_count(batch)
            &&& i % 256 < chunk_of(batch, i / 256).len()
            &&& chunk_of(batch, i / 256)[i % 256] == batch[i]
        },
        0 <= n < chunk_count(batch) ==> {
            &&& 0 < chunk_of(batch, n).len() <= 256
            &&& n + 1 < chunk_count(batch) ==> chunk_of(batch, n).len() == 256
            &&& chunk_of(batch, n) == batch.subrange(256 * n, 256 * n + chunk_of(batch, n).len())
        },
        batch.len() <= 256 * chunk_count(batch) < batch.len() + 256,
{
}

/// A chunk that was taken as a whole counts all its entries and the bytes that were
/// reported; one that had to be tried entry by entry counts each of them.
pub proof fn law_chunks_are_counted(
    tally: Tally,
    chunk: Seq<(u64, usize)>,
    bytes: u64,
    outcomes: Seq<Result<(), String>>,
)
    requires
        outcomes.len() == chunk.len(),
    ensures
        ChunkOutcome::Whole(bytes).add_to(tally, chunk).merged == tally.merged + chunk.len(),
        ChunkOutcome::Whole(bytes).add_to(tally, chunk).bytes == tally.bytes + bytes,
        ChunkOutcome::Whole(bytes).add_to(tally, chunk).errors == tally.errors,
        ({
            let after = ChunkOutcome::Each(outcomes).add_to(tally, chunk);
            after.merged + after.errors.len() == tally.merged + tally.errors.len() + chunk.len()
        }),
{
    assert(chunk.take(outcomes.len() as int) =~= chunk);
    lemma_each_adds(tally, chunk, outcomes, "process_madvise failed: "@);
}

proof fn lemma_each_adds(
    tally: Tally,
    chunk: Seq<(u64, usize)>,
    outcomes: Seq<Result<(), String>>,
    what: Seq<char>,
)
    requires
        outcomes.len() == chunk.len(),
    ensures
        ({
            let after = tally.each(chunk, outcomes, what);
            after.merged + after.errors.len() == tally.merged + tally.errors.len() + chunk.len()
        }),
    decreases chunk.len(),
{
    if chunk.len() > 0 {
        lemma_each_adds(tally, chunk.drop_last(), outcomes.drop_last(), what);
    }
}

/// The range to collapse in a region is the largest one of whole, aligned huge pages of
/// two megabytes: less than one huge page is left at either end, and where there is none,
/// no huge page fits.
pub proof fn law_as_much_as_possible_is_collapsed(m: MapsEntryView, a: int)
    requires
        m.is_ordered(),
        m.end - m.start <= usize::MAX,
        a % 0x20_0000 == 0,
    ensures
        match huge_range(m) {
            Some((start, len)) => {
                &&& start % 0x20_0000 == 0
                &&& len % 0x20_0000 == 0
                &&& 0 < len
                &&& m.start <= start < m.start + 0x20_0000
                &&& m.end - 0x20_0000 < start + len <= m.end
            },
            None => m.start <= a ==> m.end < a + 0x20_0000,
        },
{
    let start = (m.start + THP_SIZE - 1) / THP_SIZE as int * THP_SIZE;
    let end = m.end as int / THP_SIZE as int * THP_SIZE;
    if start < end {
        assert(start % 0x20_0000 == 0 && end % 0x20_0000 == 0);
        assert((end - start) % 0x20_0000 == 0);
    }
}

/// A region is worth collapsing if it is eligible and has two megabytes.
pub proof fn law_large_regions_have_two_megabytes(m: MapsEntryView)
    ensures
        is_large(m) <==> madvise::is_eligible(m) && m.end - m.start >= 2097152,
{
}

/// The ranges to collapse are those of the large regions, in their order.
pub proof fn law_ranges_of_large_regions_are_collapsed(
    a: Seq<MapsEntryView>,
    b: Seq<MapsEntryView>,
    m: MapsEntryView,
)
    ensures
        collapse_ranges(a + b) == collapse_ranges(a) + collapse_ranges(b),
        collapse_ranges(seq![m]) == (if is_large(m) && huge_range(m) is Some {
            seq![huge_range(m)->0]
        } else {
            Seq::empty()
        }),
        has_large(a + b) <==> has_large(a) || has_large(b),
        has_large(seq![m]) <==> is_large(m),
    decreases b.len(),
{
    let one = seq![m];
    assert(one.drop_last() =~= Seq::<MapsEntryView>::empty());
    assert(collapse_ranges(one.drop_last()) =~= Seq::<(u64, usize)>::empty());
    assert(one.last() == m);
    assert(one[0] == m);
    assert(collapse_ranges(one) =~= (if is_large(m) && huge_range(m) is Some {
        seq![huge_range(m)->0]
    } else {
        Seq::empty()
    }));
    lemma_has_large(a, b);
    if b.len() == 0 {
        assert(a + b =~= a);
        assert(collapse_ranges(a) + collapse_ranges(b) =~= collapse_ranges(a));
    } else {
        law_ranges_of_large_regions_are_collapsed(a, b.drop_last(), m);
        assert((a + b).drop_last() =~= a + b.drop_last());
        assert((a + b).last() == b.last());
        assert(collapse_ranges(a + b) =~= collapse_ranges(a) + collapse_ranges(b));
    }
}

proof fn lemma_has_large(a: Seq<MapsEntryView>, b: Seq<MapsEntryView>)
    ensures
        has_large(a + b) <==> has_large(a) || has_large(b),
{
    let all = a + b;
    if has_large(all) {
        let i = choose|i: int| 0 <= i < all.len() && is_large(#[trigger] all[i]);
        if i < a.len() {
            assert(is_large(a[i]));
        } else {
            assert(is_large(b[i - a.len()]));
        }
    }
    if has_large(a) {
        let i = choose|i: int| 0 <= i < a.len() && is_large(#[trigger] a[i]);
        assert(is_large(all[i]));
    }
    if has_large(b) {
        let i = choose|i: int| 0 <= i < b.len() && is_large(#[trigger] b[i]);
        assert(is_large(all[a.len() + i]));
    }
}

/// Every call that works counts, and no other does.
pub proof fn law_successes_are_counted(
    a: Seq<Result<(), String>>,
    b: Seq<Result<(), String>>,
    e: String,
)
    ensures
        successes(a + b) == successes(a) + successes(b),
        successes(seq![Ok::<(), String>(())]) == 1,
        successes(seq![Err::<(), String>(e)]) == 0,
    decreases b.len(),
{
    let ok = seq![Ok::<(), String>(())];
    let err = seq![Err::<(), String>(e)];
    assert(ok.drop_last() =~= Seq::<Result<(), String>>::empty());
    assert(err.drop_last() =~= Seq::<Result<(), String>>::empty());
    assert(successes(ok.drop_last()) == 0);
    if b.len() == 0 {
        assert(a + b =~= a);
    } else {
        law_successes_are_counted(a, b.drop_last(), e);
        assert((a + b).drop_last() =~= a + b.drop_last());
        assert((a + b).last() == b.last());
    }
}

/// The description of an error number holds the number and its name.
pub proof fn law_error_numbers_have_names(errno: int)
    ensures
        text::contains_text(errno_text(errno), text::signed_decimal(errno)),
        text::has_prefix(spec_errno_to_str(1), "EPERM"@),
        text::has_prefix(spec_errno_to_str(3), "ESRCH"@),
        text::has_prefix(spec_errno_to_str(9), "EBADF"@),
        text::has_prefix(spec_errno_to_str(12), "ENOMEM"@),
        text::has_prefix(spec_errno_to_str(22), "EINVAL"@),
        text::has_prefix(spec_errno_to_str(38), "ENOSYS"@),
        errno != 1 && errno != 3 && errno != 9 && errno != 12 && errno != 22 && errno != 38
            ==> spec_errno_to_str(errno) == "unknown"@,
        text::contains_text(errno_text(errno), spec_errno_to_str(errno)),
{
    reveal_strlit("EPERM: Operation not permitted");
    reveal_strlit("ESRCH: No such process");
    reveal_strlit("EBADF: Bad file descriptor");
    reveal_strlit("ENOMEM: Cannot allocate memory");
    reveal_strlit("EINVAL: Invalid argument");
    reveal_strlit("ENOSYS: Function not implemented");
    reveal_strlit("EPERM");
    reveal_strlit("ESRCH");
    reveal_strlit("EBADF");
    reveal_strlit("ENOMEM");
    reveal_strlit("EINVAL");
    reveal_strlit("ENOSYS");
    assert(spec_errno_to_str(1).subrange(0, 5) =~= "EPERM"@);
    assert(spec_errno_to_str(3).subrange(0, 5) =~= "ESRCH"@);
    assert(spec_errno_to_str(9).subrange(0, 5) =~= "EBADF"@);
    assert(spec_errno_to_str(12).subrange(0, 6) =~= "ENOMEM"@);
    assert(spec_errno_to_str(22).subrange(0, 6) =~= "EINVAL"@);
    assert(spec_errno_to_str(38).subrange(0, 6) =~= "ENOSYS"@);
    let head = "errno="@;
    let number = text::signed_decimal(errno);
    let open = " ("@;
    let name = spec_errno_to_str(errno);
    let close = ")"@;
    let behind = open + name + close;
    assert(head + number + behind =~= errno_text(errno));
    text::lemma_contains(head, number, behind);
    let front = head + number + open;
    text::lemma_contains(front, name, close);
}

/// A call that the kernel does not know is recognised by the description of its error:
/// the text of error number 38 says so, and that of no other.
pub proof fn law_unsupported_calls_are_recognised(errno: int, e: String)
    requires
        e@ == errno_text(errno),
    ensures
        says_unsupported(Err::<(), String>(e)) <==> errno == 38,
        !says_unsupported(Ok::<(), String>(())),
{
    reveal_strlit("ENOSYS");
    let all = errno_text(errno);
    if errno == 38 {
        let head = "errno="@ + text::signed_decimal(errno) + " ("@;
        let rest = ": Function not implemented"@ + ")"@;
        reveal_strlit("ENOSYS: Function not implemented");
        reveal_strlit(": Function not implemented");
        assert("ENOSYS: Function not implemented"@ =~= "ENOSYS"@ + ": Function not implemented"@);
        assert(head + "ENOSYS"@ + rest =~= all);
        text::lemma_contains(head, "ENOSYS"@, rest);
    } else {
        lemma_no_capital_y(errno);
        assert forall|at: int| !text::occurs_at(all, "ENOSYS"@, at) by {
            if text::occurs_at(all, "ENOSYS"@, at) {
                assert(all.subrange(at, at + 6)[4] == all[at + 4]);
                assert("ENOSYS"@[4] == 'Y');
            }
        }
    }
}

proof fn lemma_no_capital_y(errno: int)
    requires
        errno != 38,
    ensures
        forall|i: int| 0 <= i < errno_text(errno).len() ==> #[trigger] errno_text(errno)[i] != 'Y',
{
    reveal_strlit("EPERM: Operation not permitted");
    reveal_strlit("ESRCH: No such process");
    reveal_strlit("EBADF: Bad file descriptor");
    reveal_strlit("ENOMEM: Cannot allocate memory");
    reveal_strlit("EINVAL: Invalid argument");
    reveal_strlit("unknown");
    reveal_strlit("errno=");
    reveal_strlit(" (");
    reveal_strlit(")");
    reveal_strlit("-");
    let head = "errno="@;
    let number = text::signed_decimal(errno);
    let m = (if errno < 0 {
        -errno
    } else {
        errno
    }) as nat;
    let digits = text::decimal(m);
    text::lemma_decimal_digits(m);
    assert forall|i: int| 0 <= i < number.len() implies number[i] != 'Y' by {
        if errno < 0 {
            if i > 0 {
                assert(number[i] == digits[i - 1]);
                assert(0x30 <= digits[i - 1] as u32 <= 0x39);
            }
        } else {
            assert(0x30 <= digits[i] as u32 <= 0x39);
        }
    }
    let name = spec_errno_to_str(errno);
    assert forall|i: int| 0 <= i < name.len() implies name[i] != 'Y' by {}
    let all = errno_text(errno);
    assert forall|i: int| 0 <= i < all.len() implies #[trigger] all[i] != 'Y' by {
        let a = head.len() as int;
        let b = a + number.len();
        let c = b + 2;
        let d = c + name.len();
        if i < a {
            assert(all[i] == head[i]);
        } else if i < b {
            assert(all[i] == number[i - a]);
        } else if i < c {
            assert(all[i] == " ("@[i - b]);
        } else if i < d {
            assert(all[i] == name[i - c]);
        } else {
            assert(all[i] == ")"@[i - d]);
        }
    }
}

/// Every range is tried, unless the kernel does not know the call: without such an answer
/// there are as many outcomes as ranges.
pub proof fn law_every_range_is_tried<
    W,
    CollapseFn: Fn(W, i32, u64, usize) -> (Result<(), String>, W),
>(
    ranges: Seq<(u64, usize)>,
    fd: i32,
    collapse: CollapseFn,
    outcomes: Seq<Result<(), String>>,
    worlds: Seq<W>,
    from: W,
    to: W,
)
    requires
        collapsed_as(ranges, fd, collapse, outcomes, worlds, from, to),
        forall|i: int|
            0 <= i < outcomes.len() ==> match #[trigger] outcomes[i] {
                Ok(_) => true,
                Err(e) => !text::contains_text(e@, "ENOSYS"@),
            },
    ensures
        outcomes.len() == ranges.len(),
{
    if outcomes.len() > 0 {
        assert(!says_unsupported(outcomes[outcomes.len() - 1]));
    }
}

/// Each range is collapsed through the handle that was opened, with its own address and
/// length.
pub proof fn law_each_range_is_collapsed<
    W,
    CollapseFn: Fn(W, i32, u64, usize) -> (Result<(), String>, W),
>(
    ranges: Seq<(u64, usize)>,
    fd: i32,
    collapse: CollapseFn,
    outcome_of: spec_fn(i32, u64, usize) -> Result<(), String>,
    outcomes: Seq<Result<(), String>>,
    worlds: Seq<W>,
    from: W,
    to: W,
    i: int,
)
    requires
        forall|w: W, h: i32, addr: u64, len: usize, r: Result<(), String>, v: W|
            #[trigger] call_ensures(collapse, (w, h, addr, len), (r, v)) ==> r == outcome_of(
                h,
                addr,
                len,
            ),
        collapsed_as(ranges, fd, collapse, outcomes, worlds, from, to),
        0 <= i < outcomes.len(),
    ensures
        i < ranges.len(),
        outcomes[i] == outcome_of(fd, ranges[i].0, ranges[i].1),
{
    assert(call_ensures(
        collapse,
        (worlds[i], fd, ranges[i].0, ranges[i].1),
        (outcomes[i], worlds[i + 1]),
    ));
}

/// Without a large region nothing is called and nothing counts, and never more counts than
/// there are ranges.
pub proof fn law_no_more_is_collapsed_than_there_is<
    W,
    OpenFn: Fn(W, u32) -> (Result<i32, String>, W),
    CollapseFn: Fn(W, i32, u64, usize) -> (Result<(), String>, W),
    CloseFn: Fn(W, i32) -> W,
>(
    pid: u32,
    maps: Seq<MapsEntryView>,
    open: OpenFn,
    collapse: CollapseFn,
    close: CloseFn,
    from: W,
    r: usize,
    to: W,
)
    requires
        collapse_result(pid, maps, open, collapse, close, from, r, to),
    ensures
        r <= collapse_ranges(maps).len(),
        (forall|i: int|
            0 <= i < maps.len() ==> !madvise::is_eligible(#[trigger] maps[i]) || maps[i].end
                - maps[i].start < 2097152) ==> r == 0 && to == from,
{
    if has_large(maps) {
        let i = choose|i: int| 0 <= i < maps.len() && is_large(#[trigger] maps[i]);
        assert(is_large(maps[i]));
        let (opened, at) = choose|opened: Result<i32, String>, at: W|
            #[trigger] call_ensures(open, (from, pid), (opened, at)) && match opened {
                Err(_) => r == 0 && to == at,
                Ok(fd) => exists|
                    outcomes: Seq<Result<(), String>>,
                    worlds: Seq<W>,
                    tried: W,
                |
                    {
                        &&& #[trigger] collapsed_as(
                            collapse_ranges(maps),
                            fd,
                            collapse,
                            outcomes,
                            worlds,
                            at,
                            tried,
                        )
                        &&& r == successes(outcomes)
                        &&& call_ensures(close, (tried, fd), to)
                    },
            };
        if let Ok(fd) = opened {
            let (outcomes, worlds, tried) = choose|
                outcomes: Seq<Result<(), String>>,
                worlds: Seq<W>,
                tried: W,
            |
                {
                    &&& #[trigger] collapsed_as(
                        collapse_ranges(maps),
                        fd,
                        collapse,
                        outcomes,
                        worlds,
                        at,
                        tried,
                    )
                    &&& r == successes(outcomes)
                    &&& call_ensures(close, (tried, fd), to)
                };
            lemma_successes_fit(outcomes);
        }
    }
}

proof fn lemma_successes_fit(outcomes: Seq<Result<(), String>>)
    ensures
        successes(outcomes) <= outcomes.len(),
    decreases outcomes.len(),
{
    if outcomes.len() > 0 {
        lemma_successes_fit(outcomes.drop_last());
    }
}

} // verus!
