//! Tier 2: marking memory of other processes.
//!
//! `process_madvise(2)` does not support MADV_MERGEABLE for another process, so
//! that advice is injected into the target (see the `ptrace` module).
//! MADV_COLLAPSE, which promotes aligned 2MB ranges to transparent huge pages,
//! goes through `process_madvise(2)`.
//!
//! The calls themselves are handed in by the caller.

use std::collections::HashMap;

use vstd::prelude::*;

use crate::outside;
use crate::procfs;
use crate::procfs::{MapsEntry, MapsEntryView};
use crate::text;

verus! {

broadcast use vstd::std_specs::hash::group_hash_axioms;

/// MADV_MERGEABLE constant (from linux/mman.h).
pub const MADV_MERGEABLE: i32 = 12;

/// MADV_COLLAPSE constant (Linux 6.1+, collapses memory into THP).
pub const MADV_COLLAPSE: i32 = 25;

/// process_madvise syscall number (x86_64).
pub const SYS_PROCESS_MADVISE: i64 = 440;

/// pidfd_open syscall number (x86_64).
pub const SYS_PIDFD_OPEN: i64 = 434;

/// madvise syscall number (x86_64).
pub const SYS_MADVISE: u64 = 28;

/// Maximum iovecs per process_madvise call (kernel limit is typically 1024).
pub const MAX_IOV_BATCH: usize = 256;

/// Size of a transparent huge page.
pub const THP_SIZE: u64 = 0x20_0000;

/// Result of a madvise operation on a process.
#[derive(Debug)]
pub struct MadviseResult {
    pub pid: u32,
    pub regions_attempted: usize,
    pub regions_merged: usize,
    pub total_bytes_marked: u64,
    /// Address and error description.
    pub errors: Vec<(u64, String)>,
}

/// What was achieved so far.
#[verifier::ext_equal]
pub struct Tally {
    pub merged: nat,
    pub bytes: nat,
    pub errors: Seq<(u64, Seq<char>)>,
}

/// The contents of a list of errors.
pub open spec fn error_views(errors: Seq<(u64, String)>) -> Seq<(u64, Seq<char>)> {
    errors.map_values(|e: (u64, String)| (e.0, e.1@))
}

impl MadviseResult {
    /// What the result says was achieved.
    pub open spec fn tally(&self) -> Tally {
        Tally {
            merged: self.regions_merged as nat,
            bytes: self.total_bytes_marked as nat,
            errors: error_views(self.errors@),
        }
    }

    /// Records an error for a region.
    pub fn add_error(&mut self, addr: u64, what: &str, e: &str)
        ensures
            final(self).pid == old(self).pid,
            final(self).regions_attempted == old(self).regions_attempted,
            final(self).tally() == old(self).tally().failed(addr, what@ + e@),
    {
        let text = text::concat(what, e);
        self.errors.push((addr, text));
        assert(error_views(self.errors@) =~= error_views(old(self).errors@).push((addr, text@)));
    }
}

impl Tally {
    pub open spec fn zero() -> Tally {
        Tally { merged: 0, bytes: 0, errors: Seq::empty() }
    }

    /// One region more that was marked.
    pub open spec fn succeeded(self, len: nat) -> Tally {
        Tally { merged: self.merged + 1, bytes: self.bytes + len, ..self }
    }

    /// One error more.
    pub open spec fn failed(self, addr: u64, detail: Seq<char>) -> Tally {
        Tally { errors: self.errors.push((addr, detail)), ..self }
    }

    /// The outcomes of one call for each region, one after the other.
    pub open spec fn each(
        self,
        batch: Seq<(u64, usize)>,
        outcomes: Seq<Result<(), String>>,
        what: Seq<char>,
    ) -> Tally
        decreases batch.len(),
    {
        if batch.len() == 0 {
            self
        } else {
            let before = self.each(batch.drop_last(), outcomes.drop_last(), what);
            match outcomes.last() {
                Ok(_) => before.succeeded(batch.last().1 as nat),
                Err(e) => before.failed(batch.last().0, what + e@),
            }
        }
    }

    /// The same error for every region.
    pub open spec fn all_failed(self, batch: Seq<(u64, usize)>, detail: Seq<char>) -> Tally
        decreases batch.len(),
    {
        if batch.len() == 0 {
            self
        } else {
            self.all_failed(batch.drop_last(), detail).failed(batch.last().0, detail)
        }
    }
}

// ---------------------------------------------------------------------------
// Which regions
// ---------------------------------------------------------------------------

/// Whether a region may be marked: anonymous, writable, private, not executable
/// and not special.
pub open spec fn is_eligible(m: MapsEntryView) -> bool {
    m.spec_is_anon_rw() && !m.spec_has_exec() && !m.spec_is_special()
}

/// The eligible regions, in order.
pub open spec fn eligible_in(maps: Seq<MapsEntryView>) -> Seq<MapsEntryView>
    decreases maps.len(),
{
    if maps.len() == 0 {
        Seq::empty()
    } else if is_eligible(maps.last()) {
        eligible_in(maps.drop_last()).push(maps.last())
    } else {
        eligible_in(maps.drop_last())
    }
}

/// Whether no region is turned around.
pub open spec fn all_ordered(maps: Seq<MapsEntryView>) -> bool {
    forall|i: int| 0 <= i < maps.len() ==> (#[trigger] maps[i]).is_ordered()
}

/// Whether a region may be marked.
pub fn eligible(m: &MapsEntry) -> (r: bool)
    ensures
        r == is_eligible(m@),
{
    m.is_anon_rw() && !m.has_exec() && !m.is_special()
}

/// The contents of a list of references to regions.
pub open spec fn ref_views(maps: Seq<&MapsEntry>) -> Seq<MapsEntryView> {
    maps.map_values(|m: &MapsEntry| m@)
}

fn eligible_regions<'a>(regions: &'a [MapsEntry]) -> (r: Vec<&'a MapsEntry>)
    ensures
        ref_views(r@) == eligible_in(procfs::maps_view(regions@)),
{
    let mut out: Vec<&'a MapsEntry> = Vec::new();
    let ghost all = procfs::maps_view(regions@);
    let mut i: usize = 0;
    assert(all.take(0) =~= Seq::<MapsEntryView>::empty());
    assert(ref_views(out@) =~= Seq::<MapsEntryView>::empty());
    while i < regions.len()
        invariant
            i <= regions.len(),
            all == procfs::maps_view(regions@),
            ref_views(out@) == eligible_in(all.take(i as int)),
        decreases regions.len() - i,
    {
        assert(all.take(i + 1).drop_last() =~= all.take(i as int));
        assert(all.take(i + 1).last() == regions@[i as int]@);
        if eligible(&regions[i]) {
            let ghost before = out@;
            out.push(&regions[i]);
            assert(ref_views(out@) =~= ref_views(before).push(regions@[i as int]@));
        }
        i += 1;
    }
    assert(all.take(i as int) =~= all);
    out
}

/// What is selected is eligible, and what is eligible is selected.
pub proof fn lemma_eligible_in(maps: Seq<MapsEntryView>)
    ensures
        forall|i: int|
            0 <= i < eligible_in(maps).len() ==> is_eligible(#[trigger] eligible_in(maps)[i]),
        forall|i: int|
            0 <= i < maps.len() && is_eligible(#[trigger] maps[i]) ==> eligible_in(maps).contains(
                maps[i],
            ),
    decreases maps.len(),
{
    if maps.len() > 0 {
        let front = maps.drop_last();
        let before = eligible_in(front);
        lemma_eligible_in(front);
        assert forall|i: int| 0 <= i < maps.len() && is_eligible(#[trigger] maps[i]) implies (
        eligible_in(maps)).contains(maps[i]) by {
            if i < maps.len() - 1 {
                assert(front[i] == maps[i]);
                let k = choose|k: int| 0 <= k < before.len() && before[k] == maps[i];
                assert(eligible_in(maps)[k] == maps[i]);
            } else {
                assert(eligible_in(maps)[before.len() as int] == maps[i]);
            }
        }
    }
}

/// Whether no eligible region is turned around.
pub open spec fn eligible_ordered(maps: Seq<MapsEntryView>) -> bool {
    all_ordered(eligible_in(maps))
}

/// An eligible region of such a map is not turned around.
pub proof fn lemma_eligible_ordered(maps: Seq<MapsEntryView>, i: int)
    requires
        eligible_ordered(maps),
        0 <= i < maps.len(),
        is_eligible(maps[i]),
    ensures
        maps[i].is_ordered(),
{
    lemma_eligible_in(maps);
    let selected = eligible_in(maps);
    let k = choose|k: int| 0 <= k < selected.len() && selected[k] == maps[i];
    assert(selected[k].is_ordered());
}

/// The regions that fit into what is left of the byte cap: it stops at the first
/// region that does not fit.
pub open spec fn batch_from(regions: Seq<MapsEntryView>, used: int, max_bytes: int) -> Seq<
    (u64, usize),
>
    decreases regions.len(),
{
    if regions.len() == 0 || used + regions[0].spec_size() > max_bytes {
        Seq::empty()
    } else {
        seq![(regions[0].start, regions[0].spec_size() as usize)] + batch_from(
            regions.skip(1),
            used + regions[0].spec_size(),
            max_bytes,
        )
    }
}

/// The number of bytes in a batch.
pub open spec fn batch_bytes(batch: Seq<(u64, usize)>) -> nat
    decreases batch.len(),
{
    if batch.len() == 0 {
        0
    } else {
        batch_bytes(batch.drop_last()) + batch.last().1 as nat
    }
}

/// The regions that one batch has room for.
pub open spec fn with_room(regions: Seq<MapsEntryView>) -> Seq<MapsEntryView> {
    if regions.len() <= MAX_IOV_BATCH {
        regions
    } else {
        regions.take(MAX_IOV_BATCH as int)
    }
}

/// Build the batch of (addr, len) pairs from eligible regions, capping at
/// `max_bytes` total and [`MAX_IOV_BATCH`] entries.
pub fn build_batch(eligible: &Vec<&MapsEntry>, max_bytes: u64) -> (r: Vec<(u64, usize)>)
    requires
        all_ordered(ref_views(eligible@)),
    ensures
        r@ == batch_from(with_room(ref_views(eligible@)), 0, max_bytes as int),
        batch_bytes(r@) <= max_bytes,
        r@.len() <= eligible@.len(),
        r@.len() <= MAX_IOV_BATCH,
{
    let mut batch: Vec<(u64, usize)> = Vec::new();
    let mut bytes_accumulated: u64 = 0;
    let ghost all = with_room(ref_views(eligible@));
    let mut i: usize = 0;
    let room: usize = if eligible.len() < MAX_IOV_BATCH {
        eligible.len()
    } else {
        MAX_IOV_BATCH
    };
    assert(all.skip(0) =~= all);
    while i < room
        invariant
            i <= room,
            room <= eligible.len(),
            room <= MAX_IOV_BATCH,
            all.len() == room,
            all == with_room(ref_views(eligible@)),
            all_ordered(all),
            bytes_accumulated <= max_bytes,
            batch_bytes(batch@) <= bytes_accumulated,
            batch@.len() == i,
            batch_from(all, 0, max_bytes as int) == batch@ + batch_from(
                all.skip(i as int),
                bytes_accumulated as int,
                max_bytes as int,
            ),
        decreases room - i,
    {
        assert(all.skip(i as int)[0] == eligible@[i as int]@);
        assert(all[i as int].is_ordered());
        assert(all.skip(i as int).skip(1) =~= all.skip(i + 1));
        let size: u64 = eligible[i].size();
        if bytes_accumulated as u128 + size as u128 > max_bytes as u128 {
            assert(batch@ + Seq::<(u64, usize)>::empty() =~= batch@);
            return batch;
        }
        let ghost before = batch@;
        let len: usize = #[verifier::truncate] (size as usize);
        assert((size as usize) as u64 <= size) by (bit_vector);
        batch.push((eligible[i].start, len));
        bytes_accumulated = bytes_accumulated + size;
        assert(batch@.drop_last() =~= before);
        assert(before + (seq![(eligible@[i as int].start, len)] + batch_from(
            all.skip(i + 1),
            bytes_accumulated as int,
            max_bytes as int,
        )) =~= batch@ + batch_from(
            all.skip(i + 1),
            bytes_accumulated as int,
            max_bytes as int,
        ));
        i += 1;
    }
    assert(batch@ + Seq::<(u64, usize)>::empty() =~= batch@);
    batch
}

/// The batch for a process: its eligible regions, up to the caps.
pub open spec fn batch_for(maps: Seq<MapsEntryView>, max_bytes: u64) -> Seq<(u64, usize)> {
    batch_from(with_room(eligible_in(maps)), 0, max_bytes as int)
}

fn total_bytes(batch: &Vec<(u64, usize)>, max_bytes: u64) -> (r: u64)
    requires
        batch_bytes(batch@) <= max_bytes,
    ensures
        r == batch_bytes(batch@),
{
    let mut sum: u64 = 0;
    let mut i: usize = 0;
    assert(batch@.take(0) =~= Seq::<(u64, usize)>::empty());
    assert(batch@.take(batch@.len() as int) =~= batch@);
    while i < batch.len()
        invariant
            i <= batch.len(),
            sum == batch_bytes(batch@.take(i as int)),
            batch_bytes(batch@) <= max_bytes,
        decreases batch.len() - i,
    {
        assert(batch@.take(i + 1).drop_last() =~= batch@.take(i as int));
        proof {
            lemma_batch_bytes_monotone(batch@, i + 1);
        }
        sum = sum + batch[i].1 as u64;
        i += 1;
    }
    assert(batch@.take(i as int) =~= batch@);
    sum
}

proof fn lemma_batch_bytes_monotone(batch: Seq<(u64, usize)>, n: int)
    requires
        0 <= n <= batch.len(),
    ensures
        batch_bytes(batch.take(n)) <= batch_bytes(batch),
    decreases batch.len() - n,
{
    if n < batch.len() {
        lemma_batch_bytes_monotone(batch, n + 1);
        assert(batch.take(n + 1).drop_last() =~= batch.take(n));
    } else {
        assert(batch.take(n) =~= batch);
    }
}

/// A batch never exceeds its caps, neither in bytes nor in entries.
pub proof fn law_batch_respects_the_caps(maps: Seq<MapsEntryView>, max_bytes: u64)
    requires
        eligible_ordered(maps),
    ensures
        batch_bytes(batch_for(maps, max_bytes)) <= max_bytes,
        batch_for(maps, max_bytes).len() <= MAX_IOV_BATCH,
{
    let regions = with_room(eligible_in(maps));
    let batch = batch_for(maps, max_bytes);
    lemma_batch_fits(regions, 0, max_bytes as int);
    if batch.len() > 0 {
        lemma_batch_entries(regions, 0, max_bytes as int, batch.len() - 1);
    }
}

proof fn lemma_batch_fits(regions: Seq<MapsEntryView>, used: int, max_bytes: int)
    requires
        all_ordered(regions),
        0 <= used <= max_bytes <= u64::MAX,
    ensures
        used + batch_bytes(batch_from(regions, used, max_bytes)) <= max_bytes,
    decreases regions.len(),
{
    if regions.len() > 0 && used + regions[0].spec_size() <= max_bytes {
        assert(regions[0].is_ordered());
        assert forall|i: int| 0 <= i < regions.skip(1).len() implies (
        #[trigger] regions.skip(1)[i]).is_ordered() by {
            assert(regions[i + 1].is_ordered());
        }
        let size = regions[0].spec_size();
        lemma_batch_fits(regions.skip(1), used + size, max_bytes);
        let rest = batch_from(regions.skip(1), used + size, max_bytes);
        lemma_batch_bytes_front((regions[0].start, size as usize), rest);
        let wide = size as u64;
        assert((wide as usize) as u64 <= wide) by (bit_vector);
        assert(size as usize == wide as usize);
    }
}

proof fn lemma_batch_bytes_front(first: (u64, usize), rest: Seq<(u64, usize)>)
    ensures
        batch_bytes(seq![first] + rest) == first.1 as nat + batch_bytes(rest),
    decreases rest.len(),
{
    let all = seq![first] + rest;
    if rest.len() == 0 {
        assert(all.drop_last() =~= Seq::<(u64, usize)>::empty());
        assert(batch_bytes(all.drop_last()) == 0);
    } else {
        lemma_batch_bytes_front(first, rest.drop_last());
        assert(all.drop_last() =~= seq![first] + rest.drop_last());
        assert(all.last() == rest.last());
    }
}

/// Only eligible regions are ever marked: every entry of a batch is one of them.
pub proof fn law_only_eligible_regions_are_marked(
    maps: Seq<MapsEntryView>,
    max_bytes: u64,
    i: int,
)
    requires
        0 <= i < batch_for(maps, max_bytes).len(),
    ensures
        i < eligible_in(maps).len(),
        is_eligible(eligible_in(maps)[i]),
        batch_for(maps, max_bytes)[i].0 == eligible_in(maps)[i].start,
        batch_for(maps, max_bytes)[i].1 == eligible_in(maps)[i].spec_size() as usize,
{
    lemma_eligible_in(maps);
    lemma_batch_entries(with_room(eligible_in(maps)), 0, max_bytes as int, i);
}

proof fn lemma_batch_entries(regions: Seq<MapsEntryView>, used: int, max_bytes: int, i: int)
    requires
        0 <= i < batch_from(regions, used, max_bytes).len(),
    ensures
        i < regions.len(),
        batch_from(regions, used, max_bytes)[i] == (
            regions[i].start,
            regions[i].spec_size() as usize,
        ),
    decreases regions.len(),
{
    if i > 0 {
        lemma_batch_entries(
            regions.skip(1),
            used + regions[0].spec_size(),
            max_bytes,
            i - 1,
        );
    }
}

// ---------------------------------------------------------------------------
// MADV_MERGEABLE
// ---------------------------------------------------------------------------

/// Whether the entries of the batch were injected, each once and in order, and went
/// like that.
pub open spec fn injected<W, InjectFn: Fn(W, u32, u64, usize, u64) -> (Result<(), String>, W)>(
    pid: u32,
    batch: Seq<(u64, usize)>,
    at: u64,
    inject: InjectFn,
    outcomes: Seq<Result<(), String>>,
    worlds: Seq<W>,
    from: W,
    to: W,
) -> bool {
    &&& outcomes.len() == batch.len()
    &&& outside::is_path(worlds, batch.len(), from, to)
    &&& forall|i: int|
        0 <= i < batch.len() ==> call_ensures(
            inject,
            (worlds[i], pid, batch[i].0, batch[i].1, at),
            (#[trigger] outcomes[i], worlds[i + 1]),
        )
}

/// Whether `r` is what marking the regions of a process comes to, on the way from
/// one world to the other. In a dry run every region of the batch counts as marked,
/// and nothing is called. Else the place of a syscall instruction is looked up once,
/// and each region is tried once.
pub open spec fn merged_as<
    W,
    FindFn: Fn(W, u32) -> (Result<u64, String>, W),
    InjectFn: Fn(W, u32, u64, usize, u64) -> (Result<(), String>, W),
>(
    pid: u32,
    maps: Seq<MapsEntryView>,
    max_bytes: u64,
    dry_run: bool,
    find_syscall: FindFn,
    inject: InjectFn,
    from: W,
    r: MadviseResult,
    to: W,
) -> bool {
    let batch = batch_for(maps, max_bytes);
    &&& r.pid == pid
    &&& r.regions_attempted == batch.len()
    &&& if batch.len() == 0 {
        r.tally() == Tally::zero() && to == from
    } else if dry_run {
        &&& r.tally() == Tally {
            merged: batch.len(),
            bytes: batch_bytes(batch),
            errors: Seq::empty(),
        }
        &&& to == from
    } else {
        exists|found: Result<u64, String>, looked: W|
            {
                &&& #[trigger] call_ensures(find_syscall, (from, pid), (found, looked))
                &&& match found {
                    Err(e) => {
                        &&& r.tally() == Tally::zero().all_failed(
                            batch,
                            "cannot find syscall instruction: "@ + e@,
                        )
                        &&& to == looked
                    },
                    Ok(at) => exists|outcomes: Seq<Result<(), String>>, worlds: Seq<W>|
                        {
                            &&& #[trigger] injected(
                                pid,
                                batch,
                                at,
                                inject,
                                outcomes,
                                worlds,
                                looked,
                                to,
                            )
                            &&& r.tally() == Tally::zero().each(
                                batch,
                                outcomes,
                                "ptrace madvise failed: "@,
                            )
                        },
                }
            }
    }
}

/// What marking the regions of a process may call: nothing in a dry run or for an
/// empty batch; else the lookup, and the injection of entries of the batch at an
/// address that was found.
pub open spec fn may_merge<
    W,
    FindFn: Fn(W, u32) -> (Result<u64, String>, W),
    InjectFn: Fn(W, u32, u64, usize, u64) -> (Result<(), String>, W),
>(
    pid: u32,
    maps: Seq<MapsEntryView>,
    max_bytes: u64,
    dry_run: bool,
    find_syscall: FindFn,
    inject: InjectFn,
) -> bool {
    let batch = batch_for(maps, max_bytes);
    !dry_run && batch.len() > 0 ==> {
        &&& forall|w: W| #[trigger] call_requires(find_syscall, (w, pid))
        &&& forall|at: u64|
            (exists|w: W, looked: W| #[trigger]
                call_ensures(find_syscall, (w, pid), (Ok::<u64, String>(at), looked)))
                ==> may_inject(pid, batch, at, inject)
    }
}

/// Whether the entries of the batch may be injected at that address.
pub open spec fn may_inject<W, InjectFn: Fn(W, u32, u64, usize, u64) -> (Result<(), String>, W)>(
    pid: u32,
    batch: Seq<(u64, usize)>,
    at: u64,
    inject: InjectFn,
) -> bool {
    forall|i: int, w: W|
        0 <= i < batch.len() ==> #[trigger] call_requires(
            inject,
            (w, pid, batch[i].0, batch[i].1, at),
        )
}

/// Apply MADV_MERGEABLE to anonymous RW regions of a target process, up to a cap
/// of bytes. `find_syscall` finds a syscall instruction in the process, and
/// `inject` makes one call of madvise in it; a dry run makes neither call.
pub fn apply_mergeable<
    W,
    FindFn: Fn(W, u32) -> (Result<u64, String>, W),
    InjectFn: Fn(W, u32, u64, usize, u64) -> (Result<(), String>, W),
>(
    pid: u32,
    regions: &[MapsEntry],
    max_bytes: u64,
    dry_run: bool,
    world: W,
    find_syscall: &FindFn,
    inject: &InjectFn,
) -> (r: (MadviseResult, W))
    requires
        eligible_ordered(procfs::maps_view(regions@)),
        may_merge(
            pid,
            procfs::maps_view(regions@),
            max_bytes,
            dry_run,
            *find_syscall,
            *inject,
        ),
    ensures
        merged_as(
            pid,
            procfs::maps_view(regions@),
            max_bytes,
            dry_run,
            *find_syscall,
            *inject,
            world,
            r.0,
            r.1,
        ),
{
    let mut result = MadviseResult {
        pid,
        regions_attempted: 0,
        regions_merged: 0,
        total_bytes_marked: 0,
        errors: Vec::new(),
    };
    assert(error_views(result.errors@) =~= Seq::<(u64, Seq<char>)>::empty());
    let ghost maps = procfs::maps_view(regions@);
    let eligible = eligible_regions(regions);
    let batch = build_batch(&eligible, max_bytes);
    assert(batch@ == batch_for(maps, max_bytes));
    result.regions_attempted = batch.len();
    if batch.len() == 0 {
        return (result, world);
    }
    if dry_run {
        result.regions_merged = batch.len();
        result.total_bytes_marked = total_bytes(&batch, max_bytes);
        return (result, world);
    }
    let ghost start = world;
    let (found, looked) = find_syscall(world, pid);
    assert(call_ensures(find_syscall, (start, pid), (found, looked)));
    let at: u64 = match found {
        Ok(at) => at,
        Err(e) => {
            let mut i: usize = 0;
            let ghost detail = "cannot find syscall instruction: "@ + e@;
            assert(batch@.take(0) =~= Seq::<(u64, usize)>::empty());
            while i < batch.len()
                invariant
                    i <= batch.len(),
                    detail == "cannot find syscall instruction: "@ + e@,
                    result.pid == pid,
                    result.regions_attempted == batch@.len(),
                    result.tally() == Tally::zero().all_failed(batch@.take(i as int), detail),
                decreases batch.len() - i,
            {
                assert(batch@.take(i + 1).drop_last() =~= batch@.take(i as int));
                result.add_error(batch[i].0, "cannot find syscall instruction: ", e.as_str());
                i += 1;
            }
            assert(batch@.take(i as int) =~= batch@);
            return (result, looked);
        },
    };
    assert(call_ensures(find_syscall, (start, pid), (Ok::<u64, String>(at), looked)));
    let ghost mut outcomes: Seq<Result<(), String>> = Seq::empty();
    let ghost mut worlds: Seq<W> = seq![looked];
    let ghost first = looked;
    let mut now: W = looked;
    let mut i: usize = 0;
    assert(batch@.take(0) =~= Seq::<(u64, usize)>::empty());
    while i < batch.len()
        invariant
            i <= batch.len(),
            may_inject(pid, batch@, at, *inject),
            batch_bytes(batch@) <= max_bytes,
            outcomes.len() == i,
            outside::is_path(worlds, i as nat, first, now),
            forall|k: int|
                0 <= k < i ==> call_ensures(
                    inject,
                    (worlds[k], pid, batch@[k].0, batch@[k].1, at),
                    (#[trigger] outcomes[k], worlds[k + 1]),
                ),
            result.pid == pid,
            result.regions_attempted == batch@.len(),
            result.regions_merged <= i,
            result.total_bytes_marked <= batch_bytes(batch@.take(i as int)),
            result.tally() == Tally::zero().each(
                batch@.take(i as int),
                outcomes,
                "ptrace madvise failed: "@,
            ),
        decreases batch.len() - i,
    {
        let (addr, len) = batch[i];
        assert(batch@.take(i + 1).drop_last() =~= batch@.take(i as int));
        proof {
            lemma_batch_bytes_monotone(batch@, i + 1);
        }
        let ghost before = now;
        assert(call_requires(
            inject,
            (before, pid, batch@[i as int].0, batch@[i as int].1, at),
        ));
        let (outcome, next) = inject(now, pid, addr, len, at);
        proof {
            let done = outcomes;
            let seen = worlds;
            outcomes = outcomes.push(outcome);
            worlds = worlds.push(next);
            assert(outcomes.drop_last() =~= done);
            assert forall|k: int| 0 <= k < outcomes.len() implies call_ensures(
                inject,
                (worlds[k], pid, batch@[k].0, batch@[k].1, at),
                (#[trigger] outcomes[k], worlds[k + 1]),
            ) by {
                if k < done.len() {
                    assert(outcomes[k] == done[k]);
                    assert(worlds[k] == seen[k] && worlds[k + 1] == seen[k + 1]);
                }
            }
        }
        match outcome {
            Ok(_) => {
                result.regions_merged = result.regions_merged + 1;
                result.total_bytes_marked = result.total_bytes_marked + len as u64;
            },
            Err(e) => {
                result.add_error(addr, "ptrace madvise failed: ", e.as_str());
            },
        }
        now = next;
        i += 1;
    }
    assert(batch@.take(i as int) =~= batch@);
    assert(injected(pid, batch@, at, *inject, outcomes, worlds, first, now));
    (result, now)
}

/// The last target with the given PID.
pub open spec fn last_target(targets: Seq<(u32, Vec<MapsEntry>)>, pid: u32) -> Option<int>
    decreases targets.len(),
{
    if targets.len() == 0 {
        None
    } else if targets.last().0 == pid {
        Some(targets.len() - 1)
    } else {
        last_target(targets.drop_last(), pid)
    }
}

proof fn lemma_last_target(targets: Seq<(u32, Vec<MapsEntry>)>, pid: u32)
    ensures
        last_target(targets, pid) matches Some(i) ==> 0 <= i < targets.len() && targets[i].0 == pid,
    decreases targets.len(),
{
    if targets.len() > 0 {
        lemma_last_target(targets.drop_last(), pid);
    }
}

/// Whether the targets were marked, each once and in order, with these results.
pub open spec fn each_merged_as<
    W,
    FindFn: Fn(W, u32) -> (Result<u64, String>, W),
    InjectFn: Fn(W, u32, u64, usize, u64) -> (Result<(), String>, W),
>(
    targets: Seq<(u32, Vec<MapsEntry>)>,
    max_bytes: u64,
    dry_run: bool,
    find_syscall: FindFn,
    inject: InjectFn,
    each: Seq<MadviseResult>,
    worlds: Seq<W>,
    from: W,
    to: W,
) -> bool {
    &&& each.len() == targets.len()
    &&& outside::is_path(worlds, targets.len(), from, to)
    &&& forall|i: int|
        0 <= i < targets.len() ==> merged_as(
            targets[i].0,
            procfs::maps_view(targets[i].1@),
            max_bytes,
            dry_run,
            find_syscall,
            inject,
            worlds[i],
            #[trigger] each[i],
            worlds[i + 1],
        )
}

/// Whether the results, by process, are those of its last target.
pub open spec fn last_of_each(
    targets: Seq<(u32, Vec<MapsEntry>)>,
    each: Seq<MadviseResult>,
    results: Map<u32, MadviseResult>,
) -> bool {
    forall|pid: u32|
        match last_target(targets, pid) {
            None => !(#[trigger] results.contains_key(pid)),
            Some(i) => results.contains_key(pid) && results[pid] == each[i],
        }
}

/// Whether the results are what marking the targets comes to, on the way from one
/// world to the other: every target is marked once, and there is one result for
/// each process, from its last target.
pub open spec fn all_merged_as<
    W,
    FindFn: Fn(W, u32) -> (Result<u64, String>, W),
    InjectFn: Fn(W, u32, u64, usize, u64) -> (Result<(), String>, W),
>(
    targets: Seq<(u32, Vec<MapsEntry>)>,
    max_bytes: u64,
    dry_run: bool,
    find_syscall: FindFn,
    inject: InjectFn,
    from: W,
    results: Map<u32, MadviseResult>,
    to: W,
) -> bool {
    exists|each: Seq<MadviseResult>, worlds: Seq<W>|
        {
            &&& #[trigger] each_merged_as(
                targets,
                max_bytes,
                dry_run,
                find_syscall,
                inject,
                each,
                worlds,
                from,
                to,
            )
            &&& last_of_each(targets, each, results)
        }
}

/// What marking the targets may call.
pub open spec fn may_merge_all<
    W,
    FindFn: Fn(W, u32) -> (Result<u64, String>, W),
    InjectFn: Fn(W, u32, u64, usize, u64) -> (Result<(), String>, W),
>(
    targets: Seq<(u32, Vec<MapsEntry>)>,
    max_bytes: u64,
    dry_run: bool,
    find_syscall: FindFn,
    inject: InjectFn,
) -> bool {
    forall|i: int|
        0 <= i < targets.len() ==> may_merge(
            (#[trigger] targets[i]).0,
            procfs::maps_view(targets[i].1@),
            max_bytes,
            dry_run,
            find_syscall,
            inject,
        )
}

/// A dry run makes no call: it needs leave for none, and it ends in the world in
/// which it began.
pub proof fn law_dry_run_calls_nothing<
    W,
    FindFn: Fn(W, u32) -> (Result<u64, String>, W),
    InjectFn: Fn(W, u32, u64, usize, u64) -> (Result<(), String>, W),
>(
    targets: Seq<(u32, Vec<MapsEntry>)>,
    max_bytes: u64,
    find_syscall: FindFn,
    inject: InjectFn,
    from: W,
    results: Map<u32, MadviseResult>,
    to: W,
)
    ensures
        may_merge_all(targets, max_bytes, true, find_syscall, inject),
        all_merged_as(targets, max_bytes, true, find_syscall, inject, from, results, to) ==> to
            == from,
{
    if all_merged_as(targets, max_bytes, true, find_syscall, inject, from, results, to) {
        let (each, worlds) = choose|each: Seq<MadviseResult>, worlds: Seq<W>| #[trigger]
            each_merged_as(
                targets,
                max_bytes,
                true,
                find_syscall,
                inject,
                each,
                worlds,
                from,
                to,
            );
        lemma_dry_run_stays(
            targets,
            max_bytes,
            find_syscall,
            inject,
            each,
            worlds,
            from,
            to,
            targets.len() as int,
        );
    }
}

proof fn lemma_dry_run_stays<
    W,
    FindFn: Fn(W, u32) -> (Result<u64, String>, W),
    InjectFn: Fn(W, u32, u64, usize, u64) -> (Result<(), String>, W),
>(
    targets: Seq<(u32, Vec<MapsEntry>)>,
    max_bytes: u64,
    find_syscall: FindFn,
    inject: InjectFn,
    each: Seq<MadviseResult>,
    worlds: Seq<W>,
    from: W,
    to: W,
    n: int,
)
    requires
        each_merged_as(
            targets,
            max_bytes,
            true,
            find_syscall,
            inject,
            each,
            worlds,
            from,
            to,
        ),
        0 <= n <= targets.len(),
    ensures
        worlds[n] == from,
    decreases n,
{
    if n > 0 {
        lemma_dry_run_stays(
            targets,
            max_bytes,
            find_syscall,
            inject,
            each,
            worlds,
            from,
            to,
            n - 1,
        );
        assert(each[n - 1].pid == targets[n - 1].0);
    }
}

/// Apply MADV_MERGEABLE to multiple processes at once.
pub fn batch_apply_mergeable<
    W,
    FindFn: Fn(W, u32) -> (Result<u64, String>, W),
    InjectFn: Fn(W, u32, u64, usize, u64) -> (Result<(), String>, W),
>(
    targets: &Vec<(u32, Vec<MapsEntry>)>,
    max_bytes_per_process: u64,
    dry_run: bool,
    world: W,
    find_syscall: &FindFn,
    inject: &InjectFn,
) -> (r: (HashMap<u32, MadviseResult>, W))
    requires
        forall|i: int|
            0 <= i < targets@.len() ==> eligible_ordered(
                procfs::maps_view((#[trigger] targets@[i]).1@),
            ),
        may_merge_all(targets@, max_bytes_per_process, dry_run, *find_syscall, *inject),
    ensures
        all_merged_as(
            targets@,
            max_bytes_per_process,
            dry_run,
            *find_syscall,
            *inject,
            world,
            r.0@,
            r.1,
        ),
{
    let mut results: HashMap<u32, MadviseResult> = HashMap::new();
    let ghost mut each: Seq<MadviseResult> = Seq::empty();
    let ghost mut worlds: Seq<W> = seq![world];
    let ghost start = world;
    let mut now: W = world;
    let mut i: usize = 0;
    assert(targets@.take(0) =~= Seq::<(u32, Vec<MapsEntry>)>::empty());
    while i < targets.len()
        invariant
            i <= targets.len(),
            forall|i: int|
                0 <= i < targets@.len() ==> eligible_ordered(
                    procfs::maps_view((#[trigger] targets@[i]).1@),
                ),
            may_merge_all(targets@, max_bytes_per_process, dry_run, *find_syscall, *inject),
            each.len() == i,
            outside::is_path(worlds, i as nat, start, now),
            forall|k: int|
                0 <= k < i ==> merged_as(
                    targets@[k].0,
                    procfs::maps_view(targets@[k].1@),
                    max_bytes_per_process,
                    dry_run,
                    *find_syscall,
                    *inject,
                    worlds[k],
                    #[trigger] each[k],
                    worlds[k + 1],
                ),
            last_of_each(targets@.take(i as int), each, results@),
        decreases targets.len() - i,
    {
        let target = &targets[i];
        let (result, next) = apply_mergeable(
            target.0,
            target.1.as_slice(),
            max_bytes_per_process,
            dry_run,
            now,
            find_syscall,
            inject,
        );
        let ghost before = results@;
        let ghost done = each;
        proof {
            let seen = worlds;
            each = each.push(result);
            worlds = worlds.push(next);
            assert forall|k: int| 0 <= k < each.len() implies merged_as(
                targets@[k].0,
                procfs::maps_view(targets@[k].1@),
                max_bytes_per_process,
                dry_run,
                *find_syscall,
                *inject,
                worlds[k],
                #[trigger] each[k],
                worlds[k + 1],
            ) by {
                if k < done.len() {
                    assert(each[k] == done[k]);
                    assert(worlds[k] == seen[k] && worlds[k + 1] == seen[k + 1]);
                }
            }
        }
        results.insert(target.0, result);
        assert(targets@.take(i + 1).drop_last() =~= targets@.take(i as int));
        assert forall|pid: u32|
            match last_target(targets@.take(i + 1), pid) {
                None => !(#[trigger] results@.contains_key(pid)),
                Some(k) => results@.contains_key(pid) && results@[pid] == each[k],
            } by {
            if pid != target.0 {
                assert(before.contains_key(pid) == results@.contains_key(pid));
                lemma_last_target(targets@.take(i as int), pid);
            }
        }
        now = next;
        i += 1;
    }
    assert(targets@.take(i as int) =~= targets@);
    assert(each_merged_as(
        targets@,
        max_bytes_per_process,
        dry_run,
        *find_syscall,
        *inject,
        each,
        worlds,
        start,
        now,
    ));
    (results, now)
}

// ---------------------------------------------------------------------------
// Laws
// ---------------------------------------------------------------------------

/// Which regions may be marked: those that can be read and written, are neither shared nor
/// executable, and belong to no file and bear no name.
pub proof fn law_private_anonymous_memory_is_eligible(m: MapsEntryView)
    ensures
        is_eligible(m) <==> {
            &&& text::contains_text(m.perms, "rw"@)
            &&& !m.perms.contains('s')
            &&& !m.perms.contains('x')
            &&& m.pathname == Seq::<char>::empty()
            &&& m.inode == 0
        },
        m.perms == "rw-p"@ && m.pathname.len() == 0 && m.inode == 0 ==> is_eligible(m),
        m.perms == "rw-s"@ || m.perms == "rwxp"@ || m.perms == "r--p"@ ==> !is_eligible(m),
{
    reveal_strlit("rw");
    reveal_strlit("rw-p");
    reveal_strlit("rw-s");
    reveal_strlit("rwxp");
    reveal_strlit("r--p");
    reveal_strlit("[vdso]");
    reveal_strlit("[vvar");
    reveal_strlit("[vsyscall]");
    reveal_strlit("[stack");
    reveal_strlit("[heap]");
    if m.pathname.len() == 0 {
        assert(m.pathname =~= Seq::<char>::empty());
        assert(!text::has_prefix(m.pathname, "[vdso]"@));
        assert(!text::has_prefix(m.pathname, "[vvar"@));
        assert(!text::has_prefix(m.pathname, "[vsyscall]"@));
        assert(!text::has_prefix(m.pathname, "[stack"@));
        assert(!text::has_prefix(m.pathname, "[heap]"@));
    }
    if m.perms == "rw-p"@ {
        assert(m.perms.subrange(0, 2) =~= "rw"@);
        assert(text::occurs_at(m.perms, "rw"@, 0));
    }
    if m.perms == "rw-s"@ {
        assert(m.perms[3] == 's');
    }
    if m.perms == "rwxp"@ {
        assert(m.perms[2] == 'x');
    }
    if m.perms == "r--p"@ {
        assert forall|at: int| !text::occurs_at(m.perms, "rw"@, at) by {
            if text::occurs_at(m.perms, "rw"@, at) {
                assert(m.perms.subrange(at, at + 2)[1] == m.perms[at + 1]);
                assert("rw"@[1] == 'w');
            }
        }
    }
}

/// The eligible regions of two lists are those of the one and those of the other.
pub proof fn law_eligible_regions_keep_their_order(a: Seq<MapsEntryView>, b: Seq<MapsEntryView>)
    ensures
        eligible_in(a + b) == eligible_in(a) + eligible_in(b),
    decreases b.len(),
{
    if b.len() == 0 {
        assert(a + b =~= a);
        assert(eligible_in(a) + eligible_in(b) =~= eligible_in(a));
    } else {
        law_eligible_regions_keep_their_order(a, b.drop_last());
        assert((a + b).drop_last() =~= a + b.drop_last());
        assert((a + b).last() == b.last());
        assert(eligible_in(a + b) =~= eligible_in(a) + eligible_in(b));
    }
}

/// The bytes from start to end of each region, summed up.
pub open spec fn span(regions: Seq<MapsEntryView>) -> int
    decreases regions.len(),
{
    if regions.len() == 0 {
        0
    } else {
        span(regions.drop_last()) + (regions.last().end - regions.last().start)
    }
}

proof fn lemma_span_front(regions: Seq<MapsEntryView>)
    requires
        regions.len() > 0,
    ensures
        span(regions) == regions[0].end - regions[0].start + span(regions.skip(1)),
    decreases regions.len(),
{
    if regions.len() == 1 {
        assert(regions.drop_last() =~= Seq::<MapsEntryView>::empty());
        assert(regions.skip(1) =~= Seq::<MapsEntryView>::empty());
        assert(span(regions.drop_last()) == 0);
        assert(span(regions.skip(1)) == 0);
    } else {
        lemma_span_front(regions.drop_last());
        assert(regions.drop_last().skip(1) =~= regions.skip(1).drop_last());
        assert(regions.skip(1).last() == regions.last());
    }
}

/// The bytes of regions that are not turned around only grow with their number.
pub proof fn lemma_span_grows(regions: Seq<MapsEntryView>, n: int)
    requires
        all_ordered(regions),
        0 <= n <= regions.len(),
    ensures
        0 <= span(regions.take(n)) <= span(regions),
    decreases regions.len(),
{
    if regions.len() == 0 {
        assert(regions.take(n) =~= regions);
    } else {
        let front = regions.drop_last();
        assert forall|i: int| 0 <= i < front.len() implies (#[trigger] front[i]).is_ordered() by {
            assert(regions[i].is_ordered());
        }
        assert(regions[regions.len() - 1].is_ordered());
        if n == regions.len() {
            assert(regions.take(n) =~= regions);
            lemma_span_grows(front, n - 1);
            assert(front.take(n - 1) =~= front);
        } else {
            lemma_span_grows(front, n);
            assert(front.take(n) =~= regions.take(n));
        }
    }
}

proof fn lemma_batch_stops(regions: Seq<MapsEntryView>, used: int, max_bytes: int)
    requires
        used <= max_bytes,
    ensures
        ({
            let n = batch_from(regions, used, max_bytes).len() as int;
            &&& n <= regions.len()
            &&& used + span(regions.take(n)) <= max_bytes
            &&& n < regions.len() ==> used + span(regions.take(n + 1)) > max_bytes
        }),
    decreases regions.len(),
{
    let n = batch_from(regions, used, max_bytes).len() as int;
    if regions.len() == 0 || used + regions[0].spec_size() > max_bytes {
        assert(regions.take(0) =~= Seq::<MapsEntryView>::empty());
        assert(span(regions.take(0)) == 0);
        if regions.len() > 0 {
            assert(regions.take(1).drop_last() =~= Seq::<MapsEntryView>::empty());
            assert(span(regions.take(1).drop_last()) == 0);
        }
    } else {
        let rest = regions.skip(1);
        let size = regions[0].spec_size();
        lemma_batch_stops(rest, used + size, max_bytes);
        lemma_span_front(regions.take(n));
        assert(regions.take(n).skip(1) =~= rest.take(n - 1));
        if n < regions.len() {
            lemma_span_front(regions.take(n + 1));
            assert(regions.take(n + 1).skip(1) =~= rest.take(n));
        }
    }
}

/// A batch holds as many of the eligible regions as fit, in their order, each from its
/// start over its length: it ends where there are no more, where 256 are reached, or where
/// the next one would exceed the cap.
pub proof fn law_batch_takes_what_fits(maps: Seq<MapsEntryView>, max_bytes: u64, i: int)
    requires
        eligible_ordered(maps),
    ensures
        ({
            let regions = eligible_in(maps);
            let batch = batch_for(maps, max_bytes);
            let n = batch.len() as int;
            &&& n <= regions.len()
            &&& n <= 256
            &&& span(regions.take(n)) <= max_bytes
            &&& n == regions.len() || n == 256 || span(regions.take(n + 1)) > max_bytes
            &&& 0 <= i < n && regions[i].end - regions[i].start <= usize::MAX ==> batch[i].0
                == regions[i].start && batch[i].1 == regions[i].end - regions[i].start
        }),
{
    let regions = eligible_in(maps);
    let room = with_room(regions);
    let batch = batch_for(maps, max_bytes);
    let n = batch.len() as int;
    lemma_batch_stops(room, 0, max_bytes as int);
    assert(room.take(n) =~= regions.take(n));
    if n < room.len() {
        assert(room.take(n + 1) =~= regions.take(n + 1));
    }
    if 0 <= i < n {
        lemma_batch_entries(room, 0, max_bytes as int, i);
        assert(regions[i].is_ordered());
    }
}

/// A process whose eligible regions have room, in number and in bytes, has every one of
/// them in its batch.
pub proof fn law_everything_is_tried_where_it_fits(maps: Seq<MapsEntryView>, max_bytes: u64)
    requires
        eligible_ordered(maps),
        eligible_in(maps).len() <= 256,
        span(eligible_in(maps)) <= max_bytes,
    ensures
        batch_for(maps, max_bytes).len() == eligible_in(maps).len(),
{
    let regions = eligible_in(maps);
    let n = batch_for(maps, max_bytes).len() as int;
    law_batch_takes_what_fits(maps, max_bytes, 0);
    if n < regions.len() {
        lemma_span_grows(regions, n + 1);
    }
}

proof fn lemma_each_counts(
    batch: Seq<(u64, usize)>,
    outcomes: Seq<Result<(), String>>,
    what: Seq<char>,
)
    requires
        outcomes.len() == batch.len(),
    ensures
        ({
            let t = Tally::zero().each(batch, outcomes, what);
            &&& t.merged + t.errors.len() == batch.len()
            &&& t.bytes <= batch_bytes(batch)
            &&& (forall|i: int| 0 <= i < batch.len() ==> (#[trigger] outcomes[i]) is Ok)
                ==> t.merged == batch.len() && t.bytes == batch_bytes(batch)
        }),
    decreases batch.len(),
{
    if batch.len() > 0 {
        lemma_each_counts(batch.drop_last(), outcomes.drop_last(), what);
        if forall|i: int| 0 <= i < batch.len() ==> (#[trigger] outcomes[i]) is Ok {
            assert forall|i: int| 0 <= i < batch.drop_last().len() implies (
            #[trigger] outcomes.drop_last()[i]) is Ok by {
                assert(outcomes[i] is Ok);
            }
            assert(outcomes[batch.len() - 1] is Ok);
        }
    }
}

/// A region that failed is in the list of errors, under its address and with the
/// description of its failure, and one that did not fail adds its length.
pub proof fn law_failed_regions_are_listed(
    batch: Seq<(u64, usize)>,
    outcomes: Seq<Result<(), String>>,
    what: Seq<char>,
    i: int,
)
    requires
        outcomes.len() == batch.len(),
        0 <= i < batch.len(),
    ensures
        match outcomes[i] {
            Err(e) => Tally::zero().each(batch, outcomes, what).errors.contains(
                (batch[i].0, what + e@),
            ),
            Ok(_) => Tally::zero().each(batch, outcomes, what).bytes >= batch[i].1,
        },
    decreases batch.len(),
{
    let before = Tally::zero().each(batch.drop_last(), outcomes.drop_last(), what);
    let all = Tally::zero().each(batch, outcomes, what);
    if i < batch.len() - 1 {
        law_failed_regions_are_listed(batch.drop_last(), outcomes.drop_last(), what, i);
        if let Err(e) = outcomes[i] {
            let item = (batch[i].0, what + e@);
            let k = choose|k: int| 0 <= k < before.errors.len() && before.errors[k] == item;
            assert(all.errors[k] == item);
        }
    } else if let Err(e) = outcomes[i] {
        assert(all.errors[before.errors.len() as int] == (batch[i].0, what + e@));
    }
}

proof fn lemma_all_failed_counts(batch: Seq<(u64, usize)>, detail: Seq<char>)
    ensures
        ({
            let t = Tally::zero().all_failed(batch, detail);
            &&& t.errors.len() == batch.len()
            &&& t.merged == 0
            &&& t.bytes == 0
            &&& forall|i: int|
                0 <= i < batch.len() ==> #[trigger] t.errors[i] == (batch[i].0, detail)
        }),
    decreases batch.len(),
{
    if batch.len() > 0 {
        lemma_all_failed_counts(batch.drop_last(), detail);
    }
}

/// Results add up: every region that was attempted was either marked or is listed with
/// its error, and no more bytes count as marked than the batch has. A dry run counts
/// everything as marked.
pub proof fn law_results_add_up<
    W,
    FindFn: Fn(W, u32) -> (Result<u64, String>, W),
    InjectFn: Fn(W, u32, u64, usize, u64) -> (Result<(), String>, W),
>(
    pid: u32,
    maps: Seq<MapsEntryView>,
    max_bytes: u64,
    dry_run: bool,
    find_syscall: FindFn,
    inject: InjectFn,
    from: W,
    r: MadviseResult,
    to: W,
)
    requires
        eligible_ordered(maps),
        merged_as(pid, maps, max_bytes, dry_run, find_syscall, inject, from, r, to),
    ensures
        r.pid == pid,
        r.regions_merged + r.errors@.len() == r.regions_attempted,
        r.regions_attempted <= 256,
        r.total_bytes_marked <= max_bytes,
        dry_run ==> r.errors@.len() == 0,
        r.regions_merged == 0 ==> r.total_bytes_marked == 0,
{
    let batch = batch_for(maps, max_bytes);
    law_batch_respects_the_caps(maps, max_bytes);
    assert(error_views(r.errors@).len() == r.errors@.len());
    if batch.len() > 0 && !dry_run {
        let (found, looked) = choose|found: Result<u64, String>, looked: W|
            {
                &&& #[trigger] call_ensures(find_syscall, (from, pid), (found, looked))
                &&& match found {
                    Err(e) => r.tally() == Tally::zero().all_failed(
                        batch,
                        "cannot find syscall instruction: "@ + e@,
                    ),
                    Ok(at) => exists|outcomes: Seq<Result<(), String>>, worlds: Seq<W>|
                        {
                            &&& #[trigger] injected(
                                pid,
                                batch,
                                at,
                                inject,
                                outcomes,
                                worlds,
                                looked,
                                to,
                            )
                            &&& r.tally() == Tally::zero().each(
                                batch,
                                outcomes,
                                "ptrace madvise failed: "@,
                            )
                        },
                }
            };
        match found {
            Err(e) => {
                lemma_all_failed_counts(batch, "cannot find syscall instruction: "@ + e@);
            },
            Ok(at) => {
                let (outcomes, worlds) = choose|
                    outcomes: Seq<Result<(), String>>,
                    worlds: Seq<W>,
                |
                    {
                        &&& #[trigger] injected(
                            pid,
                            batch,
                            at,
                            inject,
                            outcomes,
                            worlds,
                            looked,
                            to,
                        )
                        &&& r.tally() == Tally::zero().each(
                            batch,
                            outcomes,
                            "ptrace madvise failed: "@,
                        )
                    };
                lemma_each_counts(batch, outcomes, "ptrace madvise failed: "@);
                lemma_each_bytes(batch, outcomes, "ptrace madvise failed: "@);
            },
        }
    }
}

proof fn lemma_each_bytes(
    batch: Seq<(u64, usize)>,
    outcomes: Seq<Result<(), String>>,
    what: Seq<char>,
)
    ensures
        Tally::zero().each(batch, outcomes, what).merged == 0 ==> Tally::zero().each(
            batch,
            outcomes,
            what,
        ).bytes == 0,
    decreases batch.len(),
{
    if batch.len() > 0 {
        lemma_each_bytes(batch.drop_last(), outcomes.drop_last(), what);
    }
}

/// A dry run foretells a run in which every call succeeds: as many regions, and as many
/// bytes.
pub proof fn law_dry_run_foretells(batch: Seq<(u64, usize)>, outcomes: Seq<Result<(), String>>)
    requires
        outcomes.len() == batch.len(),
        forall|i: int| 0 <= i < batch.len() ==> (#[trigger] outcomes[i]) is Ok,
    ensures
        Tally::zero().each(batch, outcomes, "ptrace madvise failed: "@) == (Tally {
            merged: batch.len(),
            bytes: batch_bytes(batch),
            errors: Seq::empty(),
        }),
{
    lemma_each_counts(batch, outcomes, "ptrace madvise failed: "@);
    let t = Tally::zero().each(batch, outcomes, "ptrace madvise failed: "@);
    assert(t.errors =~= Seq::empty());
}

/// Each process has the result of its last target, and no other process has one.
pub proof fn law_last_target_counts(targets: Seq<(u32, Vec<MapsEntry>)>, i: int, pid: u32)
    requires
        0 <= i < targets.len(),
        forall|k: int| i < k < targets.len() ==> (#[trigger] targets[k]).0 != targets[i].0,
    ensures
        last_target(targets, targets[i].0) == Some(i),
        (forall|k: int| 0 <= k < targets.len() ==> (#[trigger] targets[k]).0 != pid)
            ==> last_target(targets, pid) is None,
    decreases targets.len(),
{
    if i < targets.len() - 1 {
        assert(targets[targets.len() - 1].0 != targets[i].0);
        let front = targets.drop_last();
        assert forall|k: int| i < k < front.len() implies (#[trigger] front[k]).0
            != front[i].0 by {
            assert(targets[k].0 != targets[i].0);
        }
        law_last_target_counts(front, i, pid);
    }
    lemma_last_target(targets, pid);
    if let Some(k) = last_target(targets, pid) {
        assert(targets[k].0 == pid);
    }
}

/// Each region of a batch is injected once, with its own address and length and at the
/// place that was found: where the outcome depends on these alone, it is that of the
/// region.
pub proof fn law_each_region_is_injected<
    W,
    InjectFn: Fn(W, u32, u64, usize, u64) -> (Result<(), String>, W),
>(
    pid: u32,
    batch: Seq<(u64, usize)>,
    at: u64,
    inject: InjectFn,
    outcome_of: spec_fn(u32, u64, usize, u64) -> Result<(), String>,
    outcomes: Seq<Result<(), String>>,
    worlds: Seq<W>,
    from: W,
    to: W,
    i: int,
)
    requires
        forall|w: W, p: u32, addr: u64, len: usize, place: u64, r: Result<(), String>, v: W|
            #[trigger] call_ensures(inject, (w, p, addr, len, place), (r, v)) ==> r == outcome_of(
                p,
                addr,
                len,
                place,
            ),
        injected(pid, batch, at, inject, outcomes, worlds, from, to),
        0 <= i < batch.len(),
    ensures
        outcomes.len() == batch.len(),
        outcomes[i] == outcome_of(pid, batch[i].0, batch[i].1, at),
{
    assert(call_ensures(
        inject,
        (worlds[i], pid, batch[i].0, batch[i].1, at),
        (outcomes[i], worlds[i + 1]),
    ));
}

proof fn lemma_each_failure(
    batch: Seq<(u64, usize)>,
    outcomes: Seq<Result<(), String>>,
    what: Seq<char>,
    e: Seq<char>,
)
    requires
        outcomes.len() == batch.len(),
        forall|i: int|
            0 <= i < outcomes.len() ==> match #[trigger] outcomes[i] {
                Ok(_) => false,
                Err(text) => text@ == e,
            },
    ensures
        ({
            let t = Tally::zero().each(batch, outcomes, what);
            &&& t.merged == 0
            &&& t.errors.len() == batch.len()
            &&& forall|i: int|
                0 <= i < batch.len() ==> #[trigger] t.errors[i] == (batch[i].0, what + e)
        }),
    decreases batch.len(),
{
    if batch.len() > 0 {
        let front = outcomes.drop_last();
        assert forall|i: int| 0 <= i < front.len() implies match #[trigger] front[i] {
            Ok(_) => false,
            Err(text) => text@ == e,
        } by {
            assert(front[i] == outcomes[i]);
        }
        lemma_each_failure(batch.drop_last(), front, what, e);
        assert(outcomes[outcomes.len() - 1] is Err);
    }
}

/// Where no syscall instruction can be found, or no injection works, nothing counts as
/// marked, and every region that was attempted is listed under its start, with what
/// failed and how.
pub proof fn law_failures_are_listed_for_every_region<
    W,
    FindFn: Fn(W, u32) -> (Result<u64, String>, W),
    InjectFn: Fn(W, u32, u64, usize, u64) -> (Result<(), String>, W),
>(
    pid: u32,
    maps: Seq<MapsEntryView>,
    max_bytes: u64,
    find_syscall: FindFn,
    inject: InjectFn,
    from: W,
    r: MadviseResult,
    to: W,
    found: bool,
    e: Seq<char>,
    i: int,
)
    requires
        eligible_ordered(maps),
        merged_as(pid, maps, max_bytes, false, find_syscall, inject, from, r, to),
        forall|w: W, p: u32, f: Result<u64, String>, v: W| #[trigger]
            call_ensures(find_syscall, (w, p), (f, v)) ==> match f {
                Ok(_) => found,
                Err(text) => !found && text@ == e,
            },
        forall|w: W, p: u32, addr: u64, len: usize, at: u64, o: Result<(), String>, v: W|
            #[trigger] call_ensures(inject, (w, p, addr, len, at), (o, v)) ==> match o {
                Ok(_) => false,
                Err(text) => text@ == e,
            },
        0 <= i < r.regions_attempted,
    ensures
        r.regions_merged == 0,
        r.errors@.len() == r.regions_attempted,
        i < eligible_in(maps).len(),
        r.errors@[i].0 == eligible_in(maps)[i].start,
        r.errors@[i].1@ == (if found {
            "ptrace madvise failed: "@ + e
        } else {
            "cannot find syscall instruction: "@ + e
        }),
{
    let batch = batch_for(maps, max_bytes);
    let lookup = "cannot find syscall instruction: "@;
    let call = "ptrace madvise failed: "@;
    lemma_batch_entries(with_room(eligible_in(maps)), 0, max_bytes as int, i);
    let (looked_up, looked) = choose|looked_up: Result<u64, String>, looked: W|
        {
            &&& #[trigger] call_ensures(find_syscall, (from, pid), (looked_up, looked))
            &&& match looked_up {
                Err(text) => r.tally() == Tally::zero().all_failed(batch, lookup + text@),
                Ok(at) => exists|outcomes: Seq<Result<(), String>>, worlds: Seq<W>|
                    {
                        &&& #[trigger] injected(
                            pid,
                            batch,
                            at,
                            inject,
                            outcomes,
                            worlds,
                            looked,
                            to,
                        )
                        &&& r.tally() == Tally::zero().each(batch, outcomes, call)
                    },
            }
        };
    match looked_up {
        Err(text) => {
            lemma_all_failed_counts(batch, lookup + text@);
        },
        Ok(at) => {
            let (outcomes, worlds) = choose|outcomes: Seq<Result<(), String>>, worlds: Seq<W>|
                {
                    &&& #[trigger] injected(
                        pid,
                        batch,
                        at,
                        inject,
                        outcomes,
                        worlds,
                        looked,
                        to,
                    )
                    &&& r.tally() == Tally::zero().each(batch, outcomes, call)
                };
            assert forall|k: int| 0 <= k < outcomes.len() implies match #[trigger] outcomes[k] {
                Ok(_) => false,
                Err(text) => text@ == e,
            } by {
                assert(call_ensures(
                    inject,
                    (worlds[k], pid, batch[k].0, batch[k].1, at),
                    (outcomes[k], worlds[k + 1]),
                ));
            }
            lemma_each_failure(batch, outcomes, call, e);
        },
    }
    let views = error_views(r.errors@);
    assert(views[i] == (r.errors@[i].0, r.errors@[i].1@));
    assert(views == r.tally().errors);
}

} // verus!
