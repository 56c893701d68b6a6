//! Tier 2: process-aware memory scanner.
//!
//! Finds processes with much anonymous memory and marks their regions as
//! mergeable. It hints at stable, cold regions and leaves the merging to KSM.
//!
//! Filtering goes from cheap to expensive: the size of a process first, then its
//! KSM statistics, and the memory map only of the largest candidates.
//!
//! The scanner keeps its own stabilization window: a level change of the governor
//! does not hold it back.

use std::collections::HashMap;

use vstd::prelude::*;
use vstd::string::StringExecFns;

use crate::config::ScannerConfig;
use crate::ksm::KsmStats;
use crate::madvise;
use crate::madvise::{batch_apply_mergeable, eligible, MadviseResult};
use crate::outside;
use crate::process_madvise;
use crate::process_madvise::collapse_regions;
use crate::procfs;
use crate::procfs::{is_blocklisted, KsmProcStat, MapsEntry, MapsEntryView, ProcessStatus};
use crate::state;
use crate::state::GovernorState;
use crate::text;

verus! {

broadcast use vstd::std_specs::hash::group_hash_axioms;

/// Above this many volatile pages collapsing is tried.
pub const VOLATILE_LIMIT: u64 = 1000;

/// Scanner statistics. The counters wrap around.
#[derive(Debug, Clone, Copy, PartialEq, Eq, Structural)]
pub struct ScannerStats {
    pub processes_filtered_l1: u64,
    pub processes_filtered_l2: u64,
    pub processes_filtered_l25_profit: u64,
    pub processes_targeted: u64,
    pub madvise_calls: u64,
    pub total_bytes_marked: u64,
    pub scan_cycles: u64,
    pub skipped_stabilization: u64,
    pub thp_collapsed: u64,
}

impl ScannerStats {
    pub open spec fn zeroes() -> ScannerStats {
        ScannerStats {
            processes_filtered_l1: 0,
            processes_filtered_l2: 0,
            processes_filtered_l25_profit: 0,
            processes_targeted: 0,
            madvise_calls: 0,
            total_bytes_marked: 0,
            scan_cycles: 0,
            skipped_stabilization: 0,
            thp_collapsed: 0,
        }
    }
}

impl Default for ScannerStats {
    fn default() -> (r: Self)
        ensures
            r == ScannerStats::zeroes(),
    {
        ScannerStats {
            processes_filtered_l1: 0,
            processes_filtered_l2: 0,
            processes_filtered_l25_profit: 0,
            processes_targeted: 0,
            madvise_calls: 0,
            total_bytes_marked: 0,
            scan_cycles: 0,
            skipped_stabilization: 0,
            thp_collapsed: 0,
        }
    }
}

/// A scored candidate process.
#[derive(Debug)]
pub struct Candidate {
    pub pid: u32,
    pub name: String,
    pub anon_rss_mb: u64,
}

/// The contents of a candidate.
#[verifier::ext_equal]
pub struct CandidateView {
    pub pid: u32,
    pub name: Seq<char>,
    pub anon_rss_mb: u64,
}

impl View for Candidate {
    type V = CandidateView;

    open spec fn view(&self) -> CandidateView {
        CandidateView { pid: self.pid, name: self.name@, anon_rss_mb: self.anon_rss_mb }
    }
}

/// The contents of a list of candidates.
pub open spec fn candidate_views(candidates: Seq<Candidate>) -> Seq<CandidateView> {
    candidates.map_values(|c: Candidate| c@)
}

// ---------------------------------------------------------------------------
// Filters
// ---------------------------------------------------------------------------

/// The candidate that a process is, if it is one: not a kernel process, not on
/// the blocklist, and large enough.
pub open spec fn l1_candidate(
    status: procfs::ProcessStatusView,
    config: &ScannerConfig,
) -> Option<CandidateView> {
    if status.pid <= 2 || procfs::spec_is_blocklisted(
        status.name,
        text::strings(config.blocklist@),
    ) || status.vm_anon_kb / 1024 < config.min_anon_rss_mb {
        None
    } else {
        Some(
            CandidateView {
                pid: status.pid,
                name: status.name,
                anon_rss_mb: status.vm_anon_kb / 1024,
            },
        )
    }
}

/// The contents of an optional candidate.
pub open spec fn opt_candidate(c: Option<Candidate>) -> Option<CandidateView> {
    match c {
        Some(c) => Some(c@),
        None => None,
    }
}

/// The candidate that a process is, if it is one.
pub fn l1_candidate_from_status(status: ProcessStatus, config: &ScannerConfig) -> (r: Option<
    Candidate,
>)
    ensures
        opt_candidate(r) == l1_candidate(status@, config),
        r is Some <==> {
            &&& status.pid > 2
            &&& status.vm_anon_kb >= 1024 * config.min_anon_rss_mb
            &&& forall|b: int|
                0 <= b < config.blocklist@.len() ==> !text::contains_text(
                    status.name@,
                    (#[trigger] config.blocklist@[b])@,
                )
        },
        r matches Some(c) ==> c.pid == status.pid && c.name@ == status.name@ && c.anon_rss_mb
            == status.vm_anon_kb / 1024,
{
    if status.pid <= 2 {
        return None;
    }
    if is_blocklisted(status.name.as_str(), &config.blocklist) {
        return None;
    }
    let anon_rss_mb: u64 = status.vm_anon_kb / 1024;
    if anon_rss_mb < config.min_anon_rss_mb {
        return None;
    }
    Some(Candidate { pid: status.pid, name: status.name, anon_rss_mb })
}

/// Whether a process is not already fully mergeable.
pub open spec fn not_merged_yet(stat: Option<KsmProcStat>) -> bool {
    !(stat matches Some(s) && s.merge_any)
}

/// Whether KSM does not report that the process costs more than it gains.
pub open spec fn not_unprofitable(stat: Option<KsmProcStat>) -> bool {
    !(stat matches Some(s) && s.process_profit < 0)
}

pub fn passes_l2_already_merged_filter(ksm_stat: Option<&KsmProcStat>) -> (r: bool)
    ensures
        r == not_merged_yet(
            match ksm_stat {
                Some(s) => Some(*s),
                None => None,
            },
        ),
{
    match ksm_stat {
        Some(s) => !s.merge_any,
        None => true,
    }
}

pub fn passes_l25_profit_filter(ksm_stat: Option<&KsmProcStat>) -> (r: bool)
    ensures
        r == not_unprofitable(
            match ksm_stat {
                Some(s) => Some(*s),
                None => None,
            },
        ),
{
    match ksm_stat {
        Some(s) => s.process_profit >= 0,
        None => true,
    }
}

/// The number of bytes in the given regions.
pub open spec fn region_bytes(maps: Seq<MapsEntryView>) -> int
    decreases maps.len(),
{
    if maps.len() == 0 {
        0
    } else {
        region_bytes(maps.drop_last()) + maps.last().spec_size()
    }
}

/// Whether the eligible regions of a memory map make sense: none is turned around,
/// and they have less bytes together than can be addressed.
pub open spec fn sane(maps: Seq<MapsEntryView>) -> bool {
    madvise::eligible_ordered(maps) && region_bytes(madvise::eligible_in(maps)) <= u64::MAX
}

proof fn lemma_region_bytes(maps: Seq<MapsEntryView>, n: int)
    requires
        madvise::eligible_ordered(maps),
        0 <= n <= maps.len(),
    ensures
        madvise::eligible_ordered(maps.take(n)),
        0 <= region_bytes(madvise::eligible_in(maps.take(n))) <= region_bytes(
            madvise::eligible_in(maps),
        ),
    decreases maps.len() - n,
{
    if n == maps.len() {
        assert(maps.take(n) =~= maps);
        lemma_region_bytes_positive(madvise::eligible_in(maps));
    } else {
        let front = maps.drop_last();
        let before = madvise::eligible_in(front);
        let all = madvise::eligible_in(maps);
        assert(before.push(maps.last()).drop_last() =~= before);
        assert forall|i: int| 0 <= i < before.len() implies (
        #[trigger] before[i]).is_ordered() by {
            assert(all[i] == before[i]);
        }
        if madvise::is_eligible(maps.last()) {
            assert(all[before.len() as int].is_ordered());
        }
        lemma_region_bytes(front, n);
        assert(front.take(n) =~= maps.take(n));
    }
}

proof fn lemma_region_bytes_positive(regions: Seq<MapsEntryView>)
    requires
        madvise::all_ordered(regions),
    ensures
        region_bytes(regions) >= 0,
    decreases regions.len(),
{
    if regions.len() > 0 {
        let front = regions.drop_last();
        assert forall|i: int| 0 <= i < front.len() implies (#[trigger] front[i]).is_ordered() by {
            assert(regions[i].is_ordered());
        }
        lemma_region_bytes_positive(front);
        assert(regions[regions.len() - 1].is_ordered());
    }
}

/// How many regions are eligible, and how many bytes they have.
pub fn eligible_anon_rw_summary(maps: &[MapsEntry]) -> (r: (usize, u64))
    requires
        sane(procfs::maps_view(maps@)),
    ensures
        r.0 == madvise::eligible_in(procfs::maps_view(maps@)).len(),
        r.1 == region_bytes(madvise::eligible_in(procfs::maps_view(maps@))),
{
    let ghost all = procfs::maps_view(maps@);
    let mut count: usize = 0;
    let mut bytes: u64 = 0;
    let mut i: usize = 0;
    assert(all.take(0) =~= Seq::<MapsEntryView>::empty());
    while i < maps.len()
        invariant
            i <= maps.len(),
            all == procfs::maps_view(maps@),
            sane(all),
            count == madvise::eligible_in(all.take(i as int)).len(),
            count <= i,
            bytes == region_bytes(madvise::eligible_in(all.take(i as int))),
        decreases maps.len() - i,
    {
        assert(all.take(i + 1).drop_last() =~= all.take(i as int));
        assert(all.take(i + 1).last() == maps@[i as int]@);
        if eligible(&maps[i]) {
            proof {
                madvise::lemma_eligible_ordered(all, i as int);
                lemma_region_bytes(all, i + 1);
                let before = madvise::eligible_in(all.take(i as int));
                assert(before.push(maps@[i as int]@).drop_last() =~= before);
            }
            count = count + 1;
            bytes = bytes + maps[i].size();
        }
        i += 1;
    }
    assert(all.take(i as int) =~= all);
    (count, bytes)
}

/// Whether the eligible regions of a memory map make sense.
pub fn is_sane(maps: &[MapsEntry]) -> (r: bool)
    ensures
        r == sane(procfs::maps_view(maps@)),
{
    let ghost all = procfs::maps_view(maps@);
    let mut bytes: u64 = 0;
    let mut n: usize = 0;
    assert(all.take(0) =~= Seq::<MapsEntryView>::empty());
    while n < maps.len()
        invariant
            n <= maps.len(),
            all == procfs::maps_view(maps@),
            madvise::eligible_ordered(all.take(n as int)),
            bytes == region_bytes(madvise::eligible_in(all.take(n as int))),
        decreases maps.len() - n,
    {
        assert(all.take(n + 1).drop_last() =~= all.take(n as int));
        assert(all.take(n + 1).last() == maps@[n as int]@);
        assert(all[n as int] == maps@[n as int]@);
        if eligible(&maps[n]) {
            proof {
                if madvise::eligible_ordered(all) {
                    madvise::lemma_eligible_ordered(all, n as int);
                    lemma_region_bytes(all, n + 1);
                }
                let before = madvise::eligible_in(all.take(n as int));
                assert(before.push(maps@[n as int]@).drop_last() =~= before);
            }
            if maps[n].start > maps[n].end {
                return false;
            }
            match bytes.checked_add(maps[n].size()) {
                Some(sum) => {
                    bytes = sum;
                },
                None => {
                    return false;
                },
            }
        }
        n += 1;
    }
    assert(all.take(n as int) =~= all);
    true
}

// ---------------------------------------------------------------------------
// Ranking
// ---------------------------------------------------------------------------

/// `sorted` with `c` behind all candidates that are at least as large.
pub open spec fn ranked_with(sorted: Seq<CandidateView>, c: CandidateView) -> Seq<CandidateView>
    decreases sorted.len(),
{
    if sorted.len() == 0 || sorted.last().anon_rss_mb >= c.anon_rss_mb {
        sorted.push(c)
    } else {
        ranked_with(sorted.drop_last(), c).push(sorted.last())
    }
}

/// The candidates from the largest to the smallest; equals keep their order.
pub open spec fn ranked(candidates: Seq<CandidateView>) -> Seq<CandidateView>
    decreases candidates.len(),
{
    if candidates.len() == 0 {
        Seq::empty()
    } else {
        ranked_with(ranked(candidates.drop_last()), candidates.last())
    }
}

/// The largest candidates, at most `max` of them.
pub open spec fn top(candidates: Seq<CandidateView>, max: usize) -> Seq<CandidateView> {
    let all = ranked(candidates);
    if all.len() <= max {
        all
    } else {
        all.take(max as int)
    }
}

proof fn lemma_ranked_with_at(sorted: Seq<CandidateView>, c: CandidateView, at: int)
    requires
        0 <= at <= sorted.len(),
        at == 0 || sorted[at - 1].anon_rss_mb >= c.anon_rss_mb,
        forall|k: int| at <= k < sorted.len() ==> sorted[k].anon_rss_mb < c.anon_rss_mb,
    ensures
        ranked_with(sorted, c) == sorted.insert(at, c),
    decreases sorted.len(),
{
    if at < sorted.len() {
        let rest = sorted.drop_last();
        assert forall|k: int| at <= k < rest.len() implies rest[k].anon_rss_mb < c.anon_rss_mb by {
            assert(sorted[k].anon_rss_mb < c.anon_rss_mb);
        }
        lemma_ranked_with_at(rest, c, at);
        assert(sorted.last().anon_rss_mb < c.anon_rss_mb);
        assert(rest.insert(at, c).push(sorted.last()) =~= sorted.insert(at, c));
    } else {
        assert(sorted.insert(at, c) =~= sorted.push(c));
    }
}

fn rank(sorted: &mut Vec<Candidate>, c: Candidate)
    ensures
        candidate_views(final(sorted)@) == ranked_with(candidate_views(old(sorted)@), c@),
{
    let ghost before = candidate_views(sorted@);
    let mut at: usize = sorted.len();
    while at > 0 && sorted[at - 1].anon_rss_mb < c.anon_rss_mb
        invariant
            at <= sorted.len(),
            before == candidate_views(sorted@),
            forall|k: int| at <= k < before.len() ==> before[k].anon_rss_mb < c@.anon_rss_mb,
        decreases at,
    {
        assert(before[at - 1] == sorted@[at - 1]@);
        at -= 1;
    }
    proof {
        if at > 0 {
            assert(before[at - 1] == sorted@[at - 1]@);
        }
        lemma_ranked_with_at(before, c@, at as int);
    }
    sorted.insert(at, c);
    assert(candidate_views(sorted@) =~= before.insert(at as int, c@));
}

/// Whether the order is from the largest to the smallest.
pub open spec fn descending(s: Seq<CandidateView>) -> bool {
    forall|i: int, j: int| 0 <= i <= j < s.len() ==> s[i].anon_rss_mb >= s[j].anon_rss_mb
}

proof fn lemma_ranked_with(sorted: Seq<CandidateView>, c: CandidateView)
    requires
        descending(sorted),
    ensures
        descending(ranked_with(sorted, c)),
        ranked_with(sorted, c).len() == sorted.len() + 1,
        ranked_with(sorted, c).to_multiset() == sorted.to_multiset().insert(c),
        ranked_with(sorted, c).last().anon_rss_mb <= c.anon_rss_mb,
        sorted.len() > 0 ==> ranked_with(sorted, c).last().anon_rss_mb
            <= sorted.last().anon_rss_mb,
        forall|i: int| #![trigger ranked_with(sorted, c)[i]]
            0 <= i < sorted.len() + 1 ==> {
                ||| ranked_with(sorted, c)[i] == c
                ||| sorted.contains(ranked_with(sorted, c)[i])
            },
    decreases sorted.len(),
{
    broadcast use vstd::seq_lib::group_to_multiset_ensures;

    let r = ranked_with(sorted, c);
    if sorted.len() == 0 || sorted.last().anon_rss_mb >= c.anon_rss_mb {
        assert forall|i: int, j: int| 0 <= i <= j < r.len() implies r[i].anon_rss_mb
            >= r[j].anon_rss_mb by {
            if j == sorted.len() && i < j {
                assert(sorted[i].anon_rss_mb >= sorted[sorted.len() - 1].anon_rss_mb);
            }
        }
        assert forall|i: int| #![trigger r[i]] 0 <= i < sorted.len() + 1 implies r[i] == c
            || sorted.contains(r[i]) by {
            if i < sorted.len() {
                assert(sorted[i] == r[i]);
            }
        }
    } else {
        let rest = sorted.drop_last();
        assert(descending(rest)) by {
            assert forall|i: int, j: int| 0 <= i <= j < rest.len() implies rest[i].anon_rss_mb
                >= rest[j].anon_rss_mb by {
                assert(sorted[i].anon_rss_mb >= sorted[j].anon_rss_mb);
            }
        }
        lemma_ranked_with(rest, c);
        let inner = ranked_with(rest, c);
        assert forall|i: int, j: int| 0 <= i <= j < r.len() implies r[i].anon_rss_mb
            >= r[j].anon_rss_mb by {
            if j == inner.len() && i < j {
                assert(inner[i] == c || rest.contains(inner[i]));
                if rest.contains(inner[i]) {
                    let k = choose|k: int| 0 <= k < rest.len() && rest[k] == inner[i];
                    assert(sorted[k].anon_rss_mb >= sorted[sorted.len() - 1].anon_rss_mb);
                }
            }
        }
        assert forall|i: int| #![trigger r[i]] 0 <= i < sorted.len() + 1 implies r[i] == c
            || sorted.contains(r[i]) by {
            if i < inner.len() {
                assert(inner[i] == r[i]);
                if rest.contains(inner[i]) {
                    let k = choose|k: int| 0 <= k < rest.len() && rest[k] == inner[i];
                    assert(sorted[k] == r[i]);
                }
            } else {
                assert(sorted[sorted.len() - 1] == r[i]);
            }
        }
        assert(rest.push(sorted.last()) =~= sorted);
        assert(r.to_multiset() == inner.to_multiset().insert(sorted.last()));
        assert(sorted.to_multiset() == rest.to_multiset().insert(sorted.last()));
        assert(r.to_multiset() =~= sorted.to_multiset().insert(c));
    }
}

/// Ranking orders the candidates from the largest to the smallest and loses none
/// of them.
pub proof fn law_ranking_sorts(candidates: Seq<CandidateView>)
    ensures
        descending(ranked(candidates)),
        ranked(candidates).len() == candidates.len(),
        ranked(candidates).to_multiset() == candidates.to_multiset(),
    decreases candidates.len(),
{
    broadcast use vstd::seq_lib::group_to_multiset_ensures;

    if candidates.len() > 0 {
        law_ranking_sorts(candidates.drop_last());
        lemma_ranked_with(ranked(candidates.drop_last()), candidates.last());
        assert(candidates.drop_last().push(candidates.last()) =~= candidates);
    } else {
        assert(candidates =~= Seq::empty());
    }
}

/// The candidates of one size.
pub open spec fn of_size(s: Seq<CandidateView>, rss: u64) -> Seq<CandidateView>
    decreases s.len(),
{
    if s.len() == 0 {
        Seq::empty()
    } else if s.last().anon_rss_mb == rss {
        of_size(s.drop_last(), rss).push(s.last())
    } else {
        of_size(s.drop_last(), rss)
    }
}

proof fn lemma_ranked_with_of_size(sorted: Seq<CandidateView>, c: CandidateView, rss: u64)
    requires
        descending(sorted),
    ensures
        of_size(ranked_with(sorted, c), rss) == (if c.anon_rss_mb == rss {
            of_size(sorted, rss).push(c)
        } else {
            of_size(sorted, rss)
        }),
    decreases sorted.len(),
{
    if sorted.len() == 0 || sorted.last().anon_rss_mb >= c.anon_rss_mb {
        assert(sorted.push(c).drop_last() =~= sorted);
    } else {
        let rest = sorted.drop_last();
        assert(descending(rest)) by {
            assert forall|i: int, j: int| 0 <= i <= j < rest.len() implies rest[i].anon_rss_mb
                >= rest[j].anon_rss_mb by {
                assert(sorted[i].anon_rss_mb >= sorted[j].anon_rss_mb);
            }
        }
        lemma_ranked_with_of_size(rest, c, rss);
        let r = ranked_with(rest, c).push(sorted.last());
        assert(r.drop_last() =~= ranked_with(rest, c));
        assert(r.last() == sorted.last());
    }
}

/// Ranking keeps the order among candidates of one size.
pub proof fn law_ranking_is_stable(candidates: Seq<CandidateView>, rss: u64)
    ensures
        of_size(ranked(candidates), rss) == of_size(candidates, rss),
    decreases candidates.len(),
{
    if candidates.len() > 0 {
        law_ranking_is_stable(candidates.drop_last(), rss);
        law_ranking_sorts(candidates.drop_last());
        lemma_ranked_with_of_size(
            ranked(candidates.drop_last()),
            candidates.last(),
            rss,
        );
    }
}

/// No candidate that is left out is larger than one that is kept.
pub proof fn law_largest_candidates_are_kept(
    candidates: Seq<CandidateView>,
    max: usize,
    kept: int,
    left_out: int,
)
    requires
        0 <= kept < top(candidates, max).len(),
        top(candidates, max).len() <= left_out < ranked(candidates).len(),
    ensures
        top(candidates, max).len() <= max,
        top(candidates, max)[kept].anon_rss_mb >= ranked(candidates)[left_out].anon_rss_mb,
{
    law_ranking_sorts(candidates);
}

// ---------------------------------------------------------------------------
// Selection
// ---------------------------------------------------------------------------

/// The candidates among the processes whose status could be read, in order.
pub open spec fn l1_of(statuses: Seq<Option<ProcessStatus>>, config: &ScannerConfig) -> Seq<
    CandidateView,
>
    decreases statuses.len(),
{
    if statuses.len() == 0 {
        Seq::empty()
    } else {
        let before = l1_of(statuses.drop_last(), config);
        match statuses.last() {
            None => before,
            Some(status) => match l1_candidate(status@, config) {
                Some(c) => before.push(c),
                None => before,
            },
        }
    }
}

/// How many candidates are not merged yet.
pub open spec fn l2_count(stats: Seq<Option<KsmProcStat>>) -> nat
    decreases stats.len(),
{
    if stats.len() == 0 {
        0
    } else {
        l2_count(stats.drop_last()) + (if not_merged_yet(stats.last()) {
            1nat
        } else {
            0nat
        })
    }
}

/// How many candidates are not merged yet but unprofitable.
pub open spec fn unprofitable_count(stats: Seq<Option<KsmProcStat>>) -> nat
    decreases stats.len(),
{
    if stats.len() == 0 {
        0
    } else {
        unprofitable_count(stats.drop_last()) + (if not_merged_yet(stats.last())
            && !not_unprofitable(stats.last()) {
            1nat
        } else {
            0nat
        })
    }
}

/// The candidates that pass both KSM filters, in order.
pub open spec fn l25_of(candidates: Seq<CandidateView>, stats: Seq<Option<KsmProcStat>>) -> Seq<
    CandidateView,
>
    decreases candidates.len(),
{
    if candidates.len() == 0 {
        Seq::empty()
    } else {
        let before = l25_of(candidates.drop_last(), stats.drop_last());
        if not_merged_yet(stats.last()) && not_unprofitable(stats.last()) {
            before.push(candidates.last())
        } else {
            before
        }
    }
}

/// A target: a process and its memory map.
#[verifier::ext_equal]
pub struct TargetView {
    pub pid: u32,
    pub maps: Seq<MapsEntryView>,
}

/// The contents of a list of targets.
pub open spec fn target_views(targets: Seq<(u32, Vec<MapsEntry>)>) -> Seq<TargetView> {
    targets.map_values(|t: (u32, Vec<MapsEntry>)| TargetView {
        pid: t.0,
        maps: procfs::maps_view(t.1@),
    })
}

/// The candidates whose memory map could be read and has an eligible region.
pub open spec fn targets_of(
    candidates: Seq<CandidateView>,
    maps: Seq<Option<Vec<MapsEntry>>>,
) -> Seq<TargetView>
    decreases candidates.len(),
{
    if candidates.len() == 0 {
        Seq::empty()
    } else {
        let before = targets_of(candidates.drop_last(), maps.drop_last());
        match maps.last() {
            Some(m) if madvise::eligible_in(procfs::maps_view(m@)).len() > 0 => before.push(
                TargetView { pid: candidates.last().pid, maps: procfs::maps_view(m@) },
            ),
            _ => before,
        }
    }
}

/// The candidates whose memory maps are read: the largest of those that pass both
/// KSM filters.
pub open spec fn finalists_of(
    candidates: Seq<CandidateView>,
    stats: Seq<Option<KsmProcStat>>,
    config: &ScannerConfig,
) -> Seq<CandidateView> {
    top(l25_of(candidates, stats), config.max_candidates_per_cycle)
}

/// Whether reading the status of each process, each once and in order, gave this on the way
/// from one world to the other.
pub open spec fn statuses_read<W, StatusFn: Fn(W, u32) -> (Option<ProcessStatus>, W)>(
    statuses: Seq<Option<ProcessStatus>>,
    pids: Seq<u32>,
    read_status: StatusFn,
    worlds: Seq<W>,
    from: W,
    to: W,
) -> bool {
    &&& statuses.len() == pids.len()
    &&& outside::is_path(worlds, pids.len(), from, to)
    &&& forall|i: int|
        0 <= i < pids.len() ==> call_ensures(
            read_status,
            (worlds[i], pids[i]),
            (#[trigger] statuses[i], worlds[i + 1]),
        )
}

/// Whether reading the KSM statistics of each candidate, each once and in order, gave this on the way
/// from one world to the other.
pub open spec fn ksm_stats_read<W, KsmFn: Fn(W, u32) -> (Option<KsmProcStat>, W)>(
    stats: Seq<Option<KsmProcStat>>,
    candidates: Seq<CandidateView>,
    read_ksm_stat: KsmFn,
    worlds: Seq<W>,
    from: W,
    to: W,
) -> bool {
    &&& stats.len() == candidates.len()
    &&& outside::is_path(worlds, candidates.len(), from, to)
    &&& forall|i: int|
        0 <= i < candidates.len() ==> call_ensures(
            read_ksm_stat,
            (worlds[i], candidates[i].pid),
            (#[trigger] stats[i], worlds[i + 1]),
        )
}

/// Whether reading the memory map of each finalist, each once and in order, gave this on the way
/// from one world to the other.
pub open spec fn maps_read<W, MapsFn: Fn(W, u32) -> (Option<Vec<MapsEntry>>, W)>(
    maps: Seq<Option<Vec<MapsEntry>>>,
    finalists: Seq<CandidateView>,
    read_maps: MapsFn,
    worlds: Seq<W>,
    from: W,
    to: W,
) -> bool {
    &&& maps.len() == finalists.len()
    &&& outside::is_path(worlds, finalists.len(), from, to)
    &&& forall|i: int|
        0 <= i < finalists.len() ==> call_ensures(
            read_maps,
            (worlds[i], finalists[i].pid),
            (#[trigger] maps[i], worlds[i + 1]),
        )
}

/// Whether the KSM statistics of each of these candidates may be read.
pub open spec fn may_read_stats<W, KsmFn: Fn(W, u32) -> (Option<KsmProcStat>, W)>(
    candidates: Seq<CandidateView>,
    read_ksm_stat: KsmFn,
) -> bool {
    forall|i: int, w: W|
        0 <= i < candidates.len() ==> #[trigger] call_requires(
            read_ksm_stat,
            (w, candidates[i].pid),
        )
}

/// Whether the memory map of each of these finalists may be read, and makes sense.
pub open spec fn may_read_maps<W, MapsFn: Fn(W, u32) -> (Option<Vec<MapsEntry>>, W)>(
    finalists: Seq<CandidateView>,
    read_maps: MapsFn,
) -> bool {
    &&& forall|i: int, w: W|
        0 <= i < finalists.len() ==> #[trigger] call_requires(read_maps, (w, finalists[i].pid))
    &&& forall|i: int, w: W, m: Vec<MapsEntry>, v: W|
        0 <= i < finalists.len() && #[trigger] call_ensures(
            read_maps,
            (w, finalists[i].pid),
            (Some(m), v),
        ) ==> sane(procfs::maps_view(m@))
}

/// What the selection may read: the status of the listed processes, the KSM
/// statistics of the processes whose status passes the first filter, and the memory
/// maps of the largest of those whose KSM statistics pass too.
pub open spec fn may_select<
    W,
    StatusFn: Fn(W, u32) -> (Option<ProcessStatus>, W),
    KsmFn: Fn(W, u32) -> (Option<KsmProcStat>, W),
    MapsFn: Fn(W, u32) -> (Option<Vec<MapsEntry>>, W),
>(
    config: &ScannerConfig,
    pids: Seq<u32>,
    read_status: StatusFn,
    read_ksm_stat: KsmFn,
    read_maps: MapsFn,
    from: W,
) -> bool {
    &&& forall|i: int, w: W|
        0 <= i < pids.len() ==> #[trigger] call_requires(read_status, (w, pids[i]))
    &&& forall|statuses: Seq<Option<ProcessStatus>>, worlds: Seq<W>, to: W| #[trigger]
        statuses_read(statuses, pids, read_status, worlds, from, to) ==> may_read_stats(
            l1_of(statuses, config),
            read_ksm_stat,
        )
    &&& forall|
        statuses: Seq<Option<ProcessStatus>>,
        worlds: Seq<W>,
        middle: W,
        stats: Seq<Option<KsmProcStat>>,
        more: Seq<W>,
        to: W,
    |
        #[trigger] statuses_read(statuses, pids, read_status, worlds, from, middle)
            && #[trigger] ksm_stats_read(
            stats,
            l1_of(statuses, config),
            read_ksm_stat,
            more,
            middle,
            to,
        ) ==> may_read_maps(
            finalists_of(l1_of(statuses, config), stats, config),
            read_maps,
        )
}

/// Everything that was read while targets were selected.
pub struct Readings {
    pub statuses: Seq<Option<ProcessStatus>>,
    pub ksm_stats: Seq<Option<KsmProcStat>>,
    pub maps: Seq<Option<Vec<MapsEntry>>>,
}

impl Readings {
    /// The candidates of the first filter.
    pub open spec fn l1(self, config: &ScannerConfig) -> Seq<CandidateView> {
        l1_of(self.statuses, config)
    }

    /// The candidates whose memory maps are read.
    pub open spec fn finalists(self, config: &ScannerConfig) -> Seq<CandidateView> {
        finalists_of(self.l1(config), self.ksm_stats, config)
    }

    /// Whether the calls gave these readings on the way from one world to the other:
    /// the status of each process, then the KSM statistics of each candidate, then
    /// the map of each finalist, each read once.
    pub open spec fn happened<
        W,
        StatusFn: Fn(W, u32) -> (Option<ProcessStatus>, W),
        KsmFn: Fn(W, u32) -> (Option<KsmProcStat>, W),
        MapsFn: Fn(W, u32) -> (Option<Vec<MapsEntry>>, W),
    >(
        self,
        config: &ScannerConfig,
        pids: Seq<u32>,
        read_status: StatusFn,
        read_ksm_stat: KsmFn,
        read_maps: MapsFn,
        from: W,
        to: W,
    ) -> bool {
        exists|a: Seq<W>, seen: W, b: Seq<W>, filtered: W, c: Seq<W>|
            {
                &&& #[trigger] statuses_read(self.statuses, pids, read_status, a, from, seen)
                &&& #[trigger] ksm_stats_read(
                    self.ksm_stats,
                    self.l1(config),
                    read_ksm_stat,
                    b,
                    seen,
                    filtered,
                )
                &&& #[trigger] maps_read(
                    self.maps,
                    self.finalists(config),
                    read_maps,
                    c,
                    filtered,
                    to,
                )
            }
    }

    /// The targets.
    pub open spec fn targets(self, config: &ScannerConfig) -> Seq<TargetView> {
        targets_of(self.finalists(config), self.maps)
    }

    /// The statistics after the selection.
    pub open spec fn counted(self, config: &ScannerConfig, stats: ScannerStats) -> ScannerStats {
        ScannerStats {
            processes_filtered_l1: stats.processes_filtered_l1.wrapping_add(
                self.l1(config).len() as u64,
            ),
            processes_filtered_l2: stats.processes_filtered_l2.wrapping_add(
                l2_count(self.ksm_stats) as u64,
            ),
            processes_filtered_l25_profit: stats.processes_filtered_l25_profit.wrapping_add(
                unprofitable_count(self.ksm_stats) as u64,
            ),
            ..stats
        }
    }
}

fn collect_l1<W, StatusFn: Fn(W, u32) -> (Option<ProcessStatus>, W)>(
    config: &ScannerConfig,
    pids: &Vec<u32>,
    world: W,
    read_status: &StatusFn,
) -> (r: (Vec<Candidate>, W, Ghost<Seq<Option<ProcessStatus>>>, Ghost<Seq<W>>))
    requires
        forall|i: int, w: W|
            0 <= i < pids@.len() ==> #[trigger] call_requires(read_status, (w, pids@[i])),
    ensures
        statuses_read(r.2@, pids@, *read_status, r.3@, world, r.1),
        candidate_views(r.0@) == l1_of(r.2@, config),
{
    let mut candidates: Vec<Candidate> = Vec::new();
    let ghost mut statuses: Seq<Option<ProcessStatus>> = Seq::empty();
    let ghost mut worlds: Seq<W> = seq![world];
    let ghost start = world;
    let mut now: W = world;
    let mut i: usize = 0;
    assert(candidate_views(candidates@) =~= Seq::<CandidateView>::empty());
    while i < pids.len()
        invariant
            i <= pids.len(),
            forall|k: int, w: W|
                0 <= k < pids@.len() ==> #[trigger] call_requires(read_status, (w, pids@[k])),
            statuses.len() == i,
            outside::is_path(worlds, i as nat, start, now),
            forall|k: int|
                0 <= k < i ==> call_ensures(
                    read_status,
                    (worlds[k], pids@[k]),
                    (#[trigger] statuses[k], worlds[k + 1]),
                ),
            candidate_views(candidates@) == l1_of(statuses, config),
        decreases pids.len() - i,
    {
        let ghost before = now;
        assert(call_requires(read_status, (before, pids@[i as int])));
        let (status, next) = read_status(now, pids[i]);
        proof {
            let done = statuses;
            let seen = worlds;
            statuses = statuses.push(status);
            worlds = worlds.push(next);
            assert(statuses.drop_last() =~= done);
            assert forall|k: int| 0 <= k < statuses.len() implies call_ensures(
                read_status,
                (worlds[k], pids@[k]),
                (#[trigger] statuses[k], worlds[k + 1]),
            ) by {
                if k < done.len() {
                    assert(statuses[k] == done[k]);
                    assert(worlds[k] == seen[k] && worlds[k + 1] == seen[k + 1]);
                }
            }
        }
        now = next;
        i += 1;
        let status = match status {
            Some(status) => status,
            None => {
                continue;
            },
        };
        if let Some(candidate) = l1_candidate_from_status(status, config) {
            let ghost before = candidates@;
            candidates.push(candidate);
            assert(candidate_views(candidates@) =~= candidate_views(before).push(candidate@));
        }
    }
    (candidates, now, Ghost(statuses), Ghost(worlds))
}

proof fn lemma_l1_len(statuses: Seq<Option<ProcessStatus>>, config: &ScannerConfig)
    ensures
        l1_of(statuses, config).len() <= statuses.len(),
    decreases statuses.len(),
{
    if statuses.len() > 0 {
        lemma_l1_len(statuses.drop_last(), config);
    }
}

proof fn lemma_l25_prefix(candidates: Seq<CandidateView>, stats: Seq<Option<KsmProcStat>>)
    requires
        candidates.len() == stats.len(),
    ensures
        l25_of(candidates, stats).len() <= candidates.len(),
        l2_count(stats) <= stats.len(),
        unprofitable_count(stats) <= stats.len(),
    decreases candidates.len(),
{
    if candidates.len() > 0 {
        lemma_l25_prefix(candidates.drop_last(), stats.drop_last());
    }
}

fn collect_l25<W, KsmFn: Fn(W, u32) -> (Option<KsmProcStat>, W)>(
    l1: Vec<Candidate>,
    world: W,
    read_ksm_stat: &KsmFn,
) -> (r: (Vec<Candidate>, u64, u64, Ghost<Seq<Option<KsmProcStat>>>, W, Ghost<Seq<W>>))
    requires
        may_read_stats(candidate_views(l1@), *read_ksm_stat),
    ensures
        ksm_stats_read(r.3@, candidate_views(l1@), *read_ksm_stat, r.5@, world, r.4),
        candidate_views(r.0@) == ranked(l25_of(candidate_views(l1@), r.3@)),
        r.1 == l2_count(r.3@),
        r.2 == unprofitable_count(r.3@),
{
    let ghost all = candidate_views(l1@);
    let mut passed: Vec<Candidate> = Vec::new();
    let mut l2_passed: u64 = 0;
    let mut unprofitable: u64 = 0;
    let ghost mut stats: Seq<Option<KsmProcStat>> = Seq::empty();
    let ghost items = l1@;
    let ghost mut worlds: Seq<W> = seq![world];
    let ghost start = world;
    let mut now: W = world;
    assert(items.len() == l1.len());
    assert(candidate_views(passed@) =~= Seq::<CandidateView>::empty());
    assert(all.take(0) =~= Seq::<CandidateView>::empty());
    for candidate in it: l1
        invariant
            it.seq() == items,
            all == candidate_views(items),
            items.len() <= u64::MAX,
            may_read_stats(all, *read_ksm_stat),
            stats.len() == it.index(),
            outside::is_path(worlds, it.index() as nat, start, now),
            forall|k: int|
                0 <= k < it.index() ==> call_ensures(
                    read_ksm_stat,
                    (worlds[k], all[k].pid),
                    (#[trigger] stats[k], worlds[k + 1]),
                ),
            candidate_views(passed@) == ranked(l25_of(all.take(it.index() as int), stats)),
            l2_passed == l2_count(stats),
            unprofitable == unprofitable_count(stats),
            l2_passed <= it.index(),
            unprofitable <= it.index(),
    {
        let ghost i = it.index() as int;
        assert(all[i].pid == candidate.pid);
        let ghost before = now;
        assert(call_requires(read_ksm_stat, (before, all[i].pid)));
        let (stat, next) = read_ksm_stat(now, candidate.pid);
        proof {
            let done = stats;
            let seen = worlds;
            stats = stats.push(stat);
            worlds = worlds.push(next);
            assert(stats.drop_last() =~= done);
            assert forall|k: int| 0 <= k < stats.len() implies call_ensures(
                read_ksm_stat,
                (worlds[k], all[k].pid),
                (#[trigger] stats[k], worlds[k + 1]),
            ) by {
                if k < done.len() {
                    assert(stats[k] == done[k]);
                    assert(worlds[k] == seen[k] && worlds[k + 1] == seen[k + 1]);
                }
            }
            assert(all.take(i + 1).drop_last() =~= all.take(i));
            assert(all.take(i + 1).last() == candidate@);
        }
        now = next;
        if passes_l2_already_merged_filter(stat.as_ref()) {
            l2_passed = l2_passed + 1;
            if passes_l25_profit_filter(stat.as_ref()) {
                proof {
                    let before = l25_of(all.take(i), stats.drop_last());
                    assert(before.push(candidate@).drop_last() =~= before);
                }
                rank(&mut passed, candidate);
            } else {
                unprofitable = unprofitable + 1;
            }
        }
    }
    assert(all.take(items.len() as int) =~= all);
    (passed, l2_passed, unprofitable, Ghost(stats), now, Ghost(worlds))
}

fn collect_targets<W, MapsFn: Fn(W, u32) -> (Option<Vec<MapsEntry>>, W)>(
    finalists: &Vec<Candidate>,
    world: W,
    read_maps: &MapsFn,
) -> (r: (Vec<(u32, Vec<MapsEntry>)>, Ghost<Seq<Option<Vec<MapsEntry>>>>, W, Ghost<Seq<W>>))
    requires
        may_read_maps(candidate_views(finalists@), *read_maps),
    ensures
        maps_read(r.1@, candidate_views(finalists@), *read_maps, r.3@, world, r.2),
        target_views(r.0@) == targets_of(candidate_views(finalists@), r.1@),
        forall|i: int|
            0 <= i < r.0@.len() ==> sane(procfs::maps_view((#[trigger] r.0@[i]).1@)),
{
    let ghost all = candidate_views(finalists@);
    let mut targets: Vec<(u32, Vec<MapsEntry>)> = Vec::new();
    let ghost mut maps: Seq<Option<Vec<MapsEntry>>> = Seq::empty();
    let ghost mut worlds: Seq<W> = seq![world];
    let ghost start = world;
    let mut now: W = world;
    let mut i: usize = 0;
    assert(target_views(targets@) =~= Seq::<TargetView>::empty());
    assert(all.take(0) =~= Seq::<CandidateView>::empty());
    while i < finalists.len()
        invariant
            i <= finalists.len(),
            all == candidate_views(finalists@),
            may_read_maps(all, *read_maps),
            maps.len() == i,
            outside::is_path(worlds, i as nat, start, now),
            forall|k: int|
                0 <= k < i ==> call_ensures(
                    read_maps,
                    (worlds[k], all[k].pid),
                    (#[trigger] maps[k], worlds[k + 1]),
                ),
            target_views(targets@) == targets_of(all.take(i as int), maps),
            forall|k: int|
                0 <= k < targets@.len() ==> sane(procfs::maps_view((#[trigger] targets@[k]).1@)),
        decreases finalists.len() - i,
    {
        let pid: u32 = finalists[i].pid;
        let ghost n = i as int;
        assert(all[n].pid == pid);
        let ghost before = now;
        assert(call_requires(read_maps, (before, all[n].pid)));
        let (read, next) = read_maps(now, pid);
        let ghost after = next;
        proof {
            let done = maps;
            let seen = worlds;
            maps = maps.push(read);
            worlds = worlds.push(next);
            assert(maps.drop_last() =~= done);
            assert forall|k: int| 0 <= k < maps.len() implies call_ensures(
                read_maps,
                (worlds[k], all[k].pid),
                (#[trigger] maps[k], worlds[k + 1]),
            ) by {
                if k < done.len() {
                    assert(maps[k] == done[k]);
                    assert(worlds[k] == seen[k] && worlds[k + 1] == seen[k + 1]);
                }
            }
            assert(all.take(i + 1).drop_last() =~= all.take(i as int));
            assert(all.take(i + 1).last().pid == pid);
        }
        now = next;
        i += 1;
        let regions = match read {
            Some(regions) => regions,
            None => {
                continue;
            },
        };
        assert(call_ensures(read_maps, (before, all[n].pid), (Some(regions), after)));
        let (count, _) = eligible_anon_rw_summary(regions.as_slice());
        if count == 0 {
            continue;
        }
        let ghost before = targets@;
        targets.push((pid, regions));
        assert(target_views(targets@) =~= target_views(before).push(
            TargetView { pid, maps: procfs::maps_view(regions@) },
        ));
    }
    assert(all.take(i as int) =~= all);
    (targets, Ghost(maps), now, Ghost(worlds))
}

/// Select the processes to mark, with their memory maps. The calls read what is
/// known of a process; they give nothing if it is gone. Each is made once.
pub fn collect_scan_targets<
    W,
    StatusFn: Fn(W, u32) -> (Option<ProcessStatus>, W),
    KsmFn: Fn(W, u32) -> (Option<KsmProcStat>, W),
    MapsFn: Fn(W, u32) -> (Option<Vec<MapsEntry>>, W),
>(
    config: &ScannerConfig,
    pids: Vec<u32>,
    stats: &mut ScannerStats,
    world: W,
    read_status: &StatusFn,
    read_ksm_stat: &KsmFn,
    read_maps: &MapsFn,
) -> (r: (Vec<(u32, Vec<MapsEntry>)>, W))
    requires
        may_select(config, pids@, *read_status, *read_ksm_stat, *read_maps, world),
    ensures
        exists|readings: Readings|
            {
                &&& #[trigger] readings.happened(
                    config,
                    pids@,
                    *read_status,
                    *read_ksm_stat,
                    *read_maps,
                    world,
                    r.1,
                )
                &&& target_views(r.0@) == readings.targets(config)
                &&& *final(stats) == readings.counted(config, *old(stats))
            },
        forall|i: int|
            0 <= i < r.0@.len() ==> sane(procfs::maps_view((#[trigger] r.0@[i]).1@)),
{
    let ghost start = world;
    let (l1, seen, Ghost(statuses), Ghost(a)) = collect_l1(config, &pids, world, read_status);
    let ghost first = seen;
    proof {
        lemma_l1_len(statuses, config);
    }
    let ghost l1_views = candidate_views(l1@);
    assert(may_read_stats(l1_views, *read_ksm_stat));
    stats.processes_filtered_l1 = stats.processes_filtered_l1.wrapping_add(l1.len() as u64);
    let (mut candidates, l2_passed, unprofitable, Ghost(ksm_stats), filtered, Ghost(b)) =
        collect_l25(l1, seen, read_ksm_stat);
    let ghost second = filtered;
    stats.processes_filtered_l25_profit =
    stats.processes_filtered_l25_profit.wrapping_add(unprofitable);
    stats.processes_filtered_l2 = stats.processes_filtered_l2.wrapping_add(l2_passed);
    let ghost sorted = candidate_views(candidates@);
    if candidates.len() > config.max_candidates_per_cycle {
        candidates.truncate(config.max_candidates_per_cycle);
        assert(candidate_views(candidates@) =~= sorted.take(
            config.max_candidates_per_cycle as int,
        ));
    }
    assert(candidate_views(candidates@) == finalists_of(l1_views, ksm_stats, config));
    assert(statuses_read(statuses, pids@, *read_status, a, start, first));
    assert(ksm_stats_read(ksm_stats, l1_views, *read_ksm_stat, b, first, second));
    let (targets, Ghost(maps), end, Ghost(c)) = collect_targets(&candidates, filtered, read_maps);
    let r = (targets, end);
    proof {
        let readings = Readings { statuses, ksm_stats, maps };
        assert(readings.l1(config) == l1_views);
        assert(readings.finalists(config) == candidate_views(candidates@));
        assert(maps_read(
            readings.maps,
            readings.finalists(config),
            *read_maps,
            c,
            second,
            r.1,
        ));
        assert(readings.happened(
            config,
            pids@,
            *read_status,
            *read_ksm_stat,
            *read_maps,
            world,
            r.1,
        ));
        assert(target_views(r.0@) == readings.targets(config));
        assert(*stats == readings.counted(config, *old(stats)));
    }
    r
}

// ---------------------------------------------------------------------------
// Cycles
// ---------------------------------------------------------------------------

/// The process scanner.
#[derive(Debug)]
pub struct Scanner {
    pub config: ScannerConfig,
    pub dry_run: bool,
    pub stats: ScannerStats,
    pub stabilization_secs: u64,
}

/// How a scan cycle ended.
#[derive(Debug)]
pub enum CycleOutcome {
    /// The last action of the scanner is too recent.
    Deferred,
    /// The processes could not be listed.
    Unlistable,
    /// These targets were found, with what marking each of them gave; `acted` says
    /// whether a region was marked.
    Ran {
        targets: Vec<(u32, Vec<MapsEntry>)>,
        results: HashMap<u32, MadviseResult>,
        acted: bool,
    },
}

impl ScannerStats {
    /// The statistics after one result was added.
    pub open spec fn with_result(self, result: MadviseResult) -> ScannerStats {
        ScannerStats {
            processes_targeted: self.processes_targeted.wrapping_add(1),
            madvise_calls: self.madvise_calls.wrapping_add(result.regions_merged as u64),
            total_bytes_marked: self.total_bytes_marked.wrapping_add(result.total_bytes_marked),
            ..self
        }
    }

    /// The statistics after the results of the given processes were added.
    pub open spec fn with_results(
        self,
        results: Map<u32, MadviseResult>,
        order: Seq<u32>,
    ) -> ScannerStats
        decreases order.len(),
    {
        if order.len() == 0 {
            self
        } else {
            self.with_results(results, order.drop_last()).with_result(results[order.last()])
        }
    }

    /// The statistics after regions were collapsed.
    pub open spec fn with_collapsed(self, counts: Seq<usize>) -> ScannerStats
        decreases counts.len(),
    {
        if counts.len() == 0 {
            self
        } else {
            let before = self.with_collapsed(counts.drop_last());
            ScannerStats {
                thp_collapsed: before.thp_collapsed.wrapping_add(counts.last() as u64),
                ..before
            }
        }
    }
}

/// Whether `order` names every process with a result once.
pub open spec fn covers(order: Seq<u32>, results: Map<u32, MadviseResult>) -> bool {
    order.no_duplicates() && order.to_set() == results.dom()
}

/// Whether collapsing is worth a try.
pub open spec fn should_collapse(dry_run: bool, ksm: Option<KsmStats>) -> bool {
    !dry_run && (ksm matches Some(stats) && stats.pages_volatile > VOLATILE_LIMIT)
}

/// The byte cap for one process.
pub open spec fn byte_cap(config: &ScannerConfig) -> int {
    config.max_mergeable_per_process_mb * 0x10_0000
}

impl Scanner {
    pub fn new(config: ScannerConfig, dry_run: bool, stabilization_secs: u64) -> (r: Self)
        ensures
            r.config == config,
            r.dry_run == dry_run,
            r.stats == ScannerStats::zeroes(),
            r.stabilization_secs == stabilization_secs,
    {
        Scanner { config, dry_run, stats: ScannerStats::default(), stabilization_secs }
    }

    /// Get current scanner statistics.
    pub fn stats(&self) -> (r: &ScannerStats)
        ensures
            *r == self.stats,
    {
        &self.stats
    }

    /// Counts a finished cycle.
    pub fn count_cycle(&mut self)
        ensures
            final(self).config == old(self).config,
            final(self).dry_run == old(self).dry_run,
            final(self).stabilization_secs == old(self).stabilization_secs,
            final(self).stats == (ScannerStats {
                scan_cycles: old(self).stats.scan_cycles.wrapping_add(1),
                ..old(self).stats
            }),
    {
        self.stats.scan_cycles = self.stats.scan_cycles.wrapping_add(1);
    }

    /// Adds the results of marking to the statistics.
    pub fn add_results(&mut self, results: &HashMap<u32, MadviseResult>)
        ensures
            final(self).config == old(self).config,
            final(self).dry_run == old(self).dry_run,
            final(self).stabilization_secs == old(self).stabilization_secs,
            exists|order: Seq<u32>|
                #[trigger] covers(order, results@) && final(self).stats
                    == old(self).stats.with_results(results@, order),
    {
        let ghost start = self.stats;
        let ghost mut order: Seq<u32> = Seq::empty();
        for pid in it: results.keys()
            invariant
                self.config == old(self).config,
                self.dry_run == old(self).dry_run,
                self.stabilization_secs == old(self).stabilization_secs,
                start == old(self).stats,
                it.seq().unref().to_set() == results@.dom(),
                it.seq().no_duplicates(),
                order.len() == it.index(),
                forall|i: int| 0 <= i < order.len() ==> #[trigger] order[i] == *it.seq()[i],
                order.no_duplicates(),
                forall|pid: u32| #[trigger] order.contains(pid) ==> results@.contains_key(pid),
                forall|pid: u32|
                    #[trigger] results@.contains_key(pid) ==> order.contains(pid) || exists|i: int|
                        it.index() <= i < it.seq().len() && *(#[trigger] it.seq()[i]) == pid,
                self.stats == start.with_results(results@, order),
        {
            proof {
                let ghost before = order;
                order = order.push(*pid);
                assert(order.drop_last() =~= before);
                assert(it.seq().unref()[it.index() as int] == *pid);
                assert(it.seq().unref().to_set().contains(*pid));
                assert(results@.contains_key(*pid));
                assert forall|i: int| 0 <= i < before.len() implies before[i] != *pid by {
                    assert(it.seq()[i] != it.seq()[it.index() as int]);
                }
                assert forall|p: u32| #[trigger] order.contains(p) implies results@.contains_key(
                    p,
                ) by {
                    if p != *pid {
                        assert(before.contains(p));
                    }
                }
                assert forall|p: u32| #[trigger] results@.contains_key(p) implies order.contains(p)
                    || exists|i: int|
                    it.index() + 1 <= i < it.seq().len() && *(#[trigger] it.seq()[i]) == p by {
                    if before.contains(p) {
                        let k = choose|k: int| 0 <= k < before.len() && before[k] == p;
                        assert(order[k] == p);
                    } else if p == *pid {
                        assert(order[before.len() as int] == p);
                    }
                }
            }
            if let Some(result) = results.get(pid) {
                self.stats.processes_targeted = self.stats.processes_targeted.wrapping_add(1);
                self.stats.madvise_calls =
                self.stats.madvise_calls.wrapping_add(result.regions_merged as u64);
                self.stats.total_bytes_marked =
                self.stats.total_bytes_marked.wrapping_add(result.total_bytes_marked);
            }
        }
        assert(order.to_set() =~= results@.dom());
        assert(covers(order, results@));
    }

    /// Tries to collapse the regions of all targets.
    pub fn collapse_targets<
        W,
        OpenFn: Fn(W, u32) -> (Result<i32, String>, W),
        CollapseFn: Fn(W, i32, u64, usize) -> (Result<(), String>, W),
        CloseFn: Fn(W, i32) -> W,
    >(
        &mut self,
        targets: &Vec<(u32, Vec<MapsEntry>)>,
        world: W,
        open: &OpenFn,
        collapse: &CollapseFn,
        close: &CloseFn,
    ) -> (r: W)
        requires
            forall|i: int|
                0 <= i < targets@.len() ==> madvise::eligible_ordered(
                    procfs::maps_view((#[trigger] targets@[i]).1@),
                ),
            may_collapse_all(target_views(targets@), *open, *collapse, *close),
        ensures
            final(self).config == old(self).config,
            final(self).dry_run == old(self).dry_run,
            final(self).stabilization_secs == old(self).stabilization_secs,
            Self::collapsed(
                targets@,
                *open,
                *collapse,
                *close,
                old(self).stats,
                final(self).stats,
                world,
                r,
            ),
    {
        let ghost start = self.stats;
        let ghost mut counts: Seq<usize> = Seq::empty();
        let ghost mut worlds: Seq<W> = seq![world];
        let ghost from = world;
        let mut now: W = world;
        let mut i: usize = 0;
        while i < targets.len()
            invariant
                i <= targets.len(),
                forall|i: int|
                    0 <= i < targets@.len() ==> madvise::eligible_ordered(
                        procfs::maps_view((#[trigger] targets@[i]).1@),
                    ),
                may_collapse_all(target_views(targets@), *open, *collapse, *close),
                self.config == old(self).config,
                self.dry_run == old(self).dry_run,
                self.stabilization_secs == old(self).stabilization_secs,
                start == old(self).stats,
                counts.len() == i,
                outside::is_path(worlds, i as nat, from, now),
                forall|k: int|
                    0 <= k < i ==> process_madvise::collapse_result(
                        targets@[k].0,
                        procfs::maps_view(targets@[k].1@),
                        *open,
                        *collapse,
                        *close,
                        worlds[k],
                        #[trigger] counts[k],
                        worlds[k + 1],
                    ),
                self.stats == start.with_collapsed(counts),
            decreases targets.len() - i,
        {
            let target = &targets[i];
            assert(target_views(targets@)[i as int].pid == target.0);
            let (count, next) = collapse_regions(
                target.0,
                target.1.as_slice(),
                now,
                open,
                collapse,
                close,
            );
            proof {
                let done = counts;
                let seen = worlds;
                counts = counts.push(count);
                worlds = worlds.push(next);
                assert(counts.drop_last() =~= done);
                assert forall|k: int| 0 <= k < counts.len() implies process_madvise::collapse_result(
                    targets@[k].0,
                    procfs::maps_view(targets@[k].1@),
                    *open,
                    *collapse,
                    *close,
                    worlds[k],
                    #[trigger] counts[k],
                    worlds[k + 1],
                ) by {
                    if k < done.len() {
                        assert(counts[k] == done[k]);
                        assert(worlds[k] == seen[k] && worlds[k + 1] == seen[k + 1]);
                    }
                }
            }
            self.stats.thp_collapsed = self.stats.thp_collapsed.wrapping_add(count as u64);
            now = next;
            i += 1;
        }
        assert(all_collapsed(
            targets@,
            *open,
            *collapse,
            *close,
            counts,
            worlds,
            from,
            now,
        ));
        now
    }
}

/// Whether the targets were collapsed, each once and in order, with these counts.
pub open spec fn all_collapsed<
    W,
    OpenFn: Fn(W, u32) -> (Result<i32, String>, W),
    CollapseFn: Fn(W, i32, u64, usize) -> (Result<(), String>, W),
    CloseFn: Fn(W, i32) -> W,
>(
    targets: Seq<(u32, Vec<MapsEntry>)>,
    open: OpenFn,
    collapse: CollapseFn,
    close: CloseFn,
    counts: Seq<usize>,
    worlds: Seq<W>,
    from: W,
    to: W,
) -> bool {
    &&& counts.len() == targets.len()
    &&& outside::is_path(worlds, targets.len(), from, to)
    &&& forall|i: int|
        0 <= i < targets.len() ==> process_madvise::collapse_result(
            targets[i].0,
            procfs::maps_view(targets[i].1@),
            open,
            collapse,
            close,
            worlds[i],
            #[trigger] counts[i],
            worlds[i + 1],
        )
}

/// The reads that a scan cycle makes.
pub struct ScanReads<ListFn, StatusFn, KsmFn, MapsFn, StatsFn> {
    /// The processes, where they can be listed.
    pub list: ListFn,
    /// The status of a process.
    pub status: StatusFn,
    /// The KSM statistics of a process.
    pub ksm_stat: KsmFn,
    /// The memory map of a process.
    pub maps: MapsFn,
    /// The statistics of KSM as a whole.
    pub ksm: StatsFn,
}

/// The calls with which a scan cycle changes other processes.
pub struct ScanCalls<FindFn, InjectFn, OpenFn, CollapseFn, CloseFn> {
    /// Finds a syscall instruction in a process.
    pub find_syscall: FindFn,
    /// Makes one call of madvise in a process.
    pub inject: InjectFn,
    /// Opens a handle of a process.
    pub open: OpenFn,
    /// Collapses one range through a handle.
    pub collapse: CollapseFn,
    /// Closes a handle.
    pub close: CloseFn,
}

impl Scanner {
    /// Whether collapsing the targets takes the statistics from `before` to `after`
    /// and leads from one world to the other.
    pub open spec fn collapsed<
        W,
        OpenFn: Fn(W, u32) -> (Result<i32, String>, W),
        CollapseFn: Fn(W, i32, u64, usize) -> (Result<(), String>, W),
        CloseFn: Fn(W, i32) -> W,
    >(
        targets: Seq<(u32, Vec<MapsEntry>)>,
        open: OpenFn,
        collapse: CollapseFn,
        close: CloseFn,
        before: ScannerStats,
        after: ScannerStats,
        from: W,
        to: W,
    ) -> bool {
        exists|counts: Seq<usize>, worlds: Seq<W>|
            {
                &&& #[trigger] all_collapsed(
                    targets,
                    open,
                    collapse,
                    close,
                    counts,
                    worlds,
                    from,
                    to,
                )
                &&& after == before.with_collapsed(counts)
            }
    }

    /// Execute one scan cycle with multi-level filtering. Inside the stabilization
    /// window nothing is read and nothing is called; a dry run marks and collapses
    /// nothing.
    pub fn scan_cycle<
        W,
        ListFn: Fn(W) -> (Option<Vec<u32>>, W),
        StatusFn: Fn(W, u32) -> (Option<ProcessStatus>, W),
        KsmFn: Fn(W, u32) -> (Option<KsmProcStat>, W),
        MapsFn: Fn(W, u32) -> (Option<Vec<MapsEntry>>, W),
        StatsFn: Fn(W) -> (Option<KsmStats>, W),
        FindFn: Fn(W, u32) -> (Result<u64, String>, W),
        InjectFn: Fn(W, u32, u64, usize, u64) -> (Result<(), String>, W),
        OpenFn: Fn(W, u32) -> (Result<i32, String>, W),
        CollapseFn: Fn(W, i32, u64, usize) -> (Result<(), String>, W),
        CloseFn: Fn(W, i32) -> W,
    >(
        &mut self,
        now: u64,
        state: &GovernorState,
        world: W,
        reads: &ScanReads<ListFn, StatusFn, KsmFn, MapsFn, StatsFn>,
        calls: &ScanCalls<FindFn, InjectFn, OpenFn, CollapseFn, CloseFn>,
    ) -> (r: (CycleOutcome, W))
        requires
            state::spec_passed(state.last_scanner_action, now, old(self).stabilization_secs)
                ==> may_scan(&old(self).config, old(self).dry_run, reads, calls, world),
        ensures
            final(self).config == old(self).config,
            final(self).dry_run == old(self).dry_run,
            final(self).stabilization_secs == old(self).stabilization_secs,
            r.0 is Deferred <==> !state::spec_passed(
                state.last_scanner_action,
                now,
                old(self).stabilization_secs,
            ),
            match r.0 {
                CycleOutcome::Deferred => {
                    &&& final(self).stats == (ScannerStats {
                        skipped_stabilization: old(self).stats.skipped_stabilization.wrapping_add(
                            1,
                        ),
                        ..old(self).stats
                    })
                    &&& r.1 == world
                },
                CycleOutcome::Unlistable => {
                    &&& call_ensures(reads.list, (world,), (None::<Vec<u32>>, r.1))
                    &&& final(self).stats == old(self).stats
                },
                CycleOutcome::Ran { targets, results, acted } => {
                    &&& listed_and_ran(
                        &old(self).config,
                        old(self).dry_run,
                        reads,
                        calls,
                        targets@,
                        results@,
                        old(self).stats,
                        final(self).stats,
                        world,
                        r.1,
                    )
                    &&& acted == (final(self).stats.madvise_calls
                        > old(self).stats.madvise_calls)
                },
            },
    {
        if !state::passed(state.last_scanner_action, now, self.stabilization_secs) {
            self.stats.skipped_stabilization = self.stats.skipped_stabilization.wrapping_add(1);
            return (CycleOutcome::Deferred, world);
        }
        let ghost from = world;
        let (pids, known) = (reads.list)(world);
        let pids = match pids {
            Some(pids) => pids,
            None => {
                return (CycleOutcome::Unlistable, known);
            },
        };
        let ghost first = known;
        assert(call_ensures(reads.list, (from,), (Some(pids), first)));
        let madvise_calls_before: u64 = self.stats.madvise_calls;
        let ghost start = self.stats;
        let ghost listed = pids;
        let (targets, chosen) = collect_scan_targets(
            &self.config,
            pids,
            &mut self.stats,
            known,
            &reads.status,
            &reads.ksm_stat,
            &reads.maps,
        );
        let ghost selected = self.stats;
        let ghost second = chosen;
        assert(selects(
            &old(self).config,
            listed@,
            reads,
            targets@,
            start,
            selected,
            first,
            second,
        ));
        proof {
            let readings = choose|readings: Readings|
                {
                    &&& #[trigger] readings.happened(
                        &old(self).config,
                        listed@,
                        reads.status,
                        reads.ksm_stat,
                        reads.maps,
                        first,
                        second,
                    )
                    &&& target_views(targets@) == readings.targets(&old(self).config)
                };
            assert(may_act(
                &old(self).config,
                old(self).dry_run,
                target_views(targets@),
                reads,
                calls,
            ));
        }
        let (results, end) = self.act_on(&targets, chosen, reads, calls);
        assert(ran_as(
            &old(self).config,
            old(self).dry_run,
            listed@,
            reads,
            calls,
            targets@,
            results@,
            start,
            self.stats,
            first,
            end,
        ));
        assert(listed_and_ran(
            &old(self).config,
            old(self).dry_run,
            reads,
            calls,
            targets@,
            results@,
            start,
            self.stats,
            from,
            end,
        ));
        let acted: bool = self.stats.madvise_calls > madvise_calls_before;
        (CycleOutcome::Ran { targets, results, acted }, end)
    }

    /// Marks the targets, and tries to collapse their regions where KSM reports
    /// many volatile pages.
    fn act_on<
        W,
        ListFn: Fn(W) -> (Option<Vec<u32>>, W),
        StatusFn: Fn(W, u32) -> (Option<ProcessStatus>, W),
        KsmFn: Fn(W, u32) -> (Option<KsmProcStat>, W),
        MapsFn: Fn(W, u32) -> (Option<Vec<MapsEntry>>, W),
        StatsFn: Fn(W) -> (Option<KsmStats>, W),
        FindFn: Fn(W, u32) -> (Result<u64, String>, W),
        InjectFn: Fn(W, u32, u64, usize, u64) -> (Result<(), String>, W),
        OpenFn: Fn(W, u32) -> (Result<i32, String>, W),
        CollapseFn: Fn(W, i32, u64, usize) -> (Result<(), String>, W),
        CloseFn: Fn(W, i32) -> W,
    >(
        &mut self,
        targets: &Vec<(u32, Vec<MapsEntry>)>,
        world: W,
        reads: &ScanReads<ListFn, StatusFn, KsmFn, MapsFn, StatsFn>,
        calls: &ScanCalls<FindFn, InjectFn, OpenFn, CollapseFn, CloseFn>,
    ) -> (r: (HashMap<u32, MadviseResult>, W))
        requires
            forall|i: int|
                0 <= i < targets@.len() ==> sane(procfs::maps_view((#[trigger] targets@[i]).1@)),
            may_act(
                &old(self).config,
                old(self).dry_run,
                target_views(targets@),
                reads,
                calls,
            ),
        ensures
            final(self).config == old(self).config,
            final(self).dry_run == old(self).dry_run,
            final(self).stabilization_secs == old(self).stabilization_secs,
            acts(
                &old(self).config,
                old(self).dry_run,
                reads,
                calls,
                targets@,
                r.0@,
                old(self).stats,
                final(self).stats,
                world,
                r.1,
            ),
    {
        let ghost views = target_views(targets@);
        let max_bytes: u64 = if targets.len() == 0 {
            0
        } else {
            self.config.max_mergeable_per_process_mb * 0x10_0000
        };
        assert forall|i: int| 0 <= i < targets@.len() implies madvise::may_merge(
            (#[trigger] targets@[i]).0,
            procfs::maps_view(targets@[i].1@),
            max_bytes,
            old(self).dry_run,
            calls.find_syscall,
            calls.inject,
        ) by {
            assert(views[i].pid == targets@[i].0);
        }
        assert forall|i: int| 0 <= i < targets@.len() implies madvise::eligible_ordered(
            procfs::maps_view((#[trigger] targets@[i]).1@),
        ) by {
            assert(sane(procfs::maps_view(targets@[i].1@)));
        }
        let ghost from = world;
        let (results, marked) = batch_apply_mergeable(
            targets,
            max_bytes,
            self.dry_run,
            world,
            &calls.find_syscall,
            &calls.inject,
        );
        self.add_results(&results);
        let ghost added = self.stats;
        assert(adds(results@, old(self).stats, added));
        let ghost middle = marked;
        proof {
            let (each, worlds) = choose|each: Seq<MadviseResult>, worlds: Seq<W>|
                {
                    &&& #[trigger] madvise::each_merged_as(
                        targets@,
                        max_bytes,
                        old(self).dry_run,
                        calls.find_syscall,
                        calls.inject,
                        each,
                        worlds,
                        from,
                        middle,
                    )
                    &&& madvise::last_of_each(targets@, each, results@)
                };
            assert(madvise::each_merged_as(
                targets@,
                byte_cap(&old(self).config) as u64,
                old(self).dry_run,
                calls.find_syscall,
                calls.inject,
                each,
                worlds,
                from,
                middle,
            ));
        }
        assert(madvise::all_merged_as(
            targets@,
            byte_cap(&old(self).config) as u64,
            old(self).dry_run,
            calls.find_syscall,
            calls.inject,
            from,
            results@,
            middle,
        ));
        let mut end: W = marked;
        if targets.len() > 0 {
            let (stats, read) = (reads.ksm)(end);
            end = read;
            assert(call_ensures(reads.ksm, (middle,), (stats, end)));
            let volatile: bool = match stats {
                Some(stats) => stats.pages_volatile > VOLATILE_LIMIT,
                None => false,
            };
            if volatile && !self.dry_run {
                end = self.collapse_targets(
                    targets,
                    end,
                    &calls.open,
                    &calls.collapse,
                    &calls.close,
                );
            }
        }
        assert(collapses(
            targets@,
            old(self).dry_run,
            reads,
            calls,
            added,
            self.stats,
            middle,
            end,
        ));
        (results, end)
    }

    /// Records the action of a cycle, at the time when it was over: a cycle that
    /// marked a region opens the window of the scanner.
    pub fn finish_cycle(now: u64, outcome: &CycleOutcome, state: &mut GovernorState)
        ensures
            *final(state) == (match *outcome {
                CycleOutcome::Ran { acted, .. } => if acted {
                    GovernorState {
                        last_scanner_action: now,
                        last_global_action: now,
                        ..*old(state)
                    }
                } else {
                    *old(state)
                },
                _ => *old(state),
            }),
    {
        if let CycleOutcome::Ran { acted, .. } = outcome {
            if *acted {
                state.last_scanner_action = now;
                state.last_global_action = now;
            }
        }
    }
}

/// Whether the regions of each target may be marked.
pub open spec fn may_merge_targets<
    W,
    FindFn: Fn(W, u32) -> (Result<u64, String>, W),
    InjectFn: Fn(W, u32, u64, usize, u64) -> (Result<(), String>, W),
>(
    targets: Seq<TargetView>,
    max_bytes: u64,
    dry_run: bool,
    find_syscall: FindFn,
    inject: InjectFn,
) -> bool {
    forall|i: int|
        0 <= i < targets.len() ==> madvise::may_merge(
            (#[trigger] targets[i]).pid,
            targets[i].maps,
            max_bytes,
            dry_run,
            find_syscall,
            inject,
        )
}

/// Whether the regions of each target may be collapsed.
pub open spec fn may_collapse_all<
    W,
    OpenFn: Fn(W, u32) -> (Result<i32, String>, W),
    CollapseFn: Fn(W, i32, u64, usize) -> (Result<(), String>, W),
    CloseFn: Fn(W, i32) -> W,
>(
    targets: Seq<TargetView>,
    open: OpenFn,
    collapse: CollapseFn,
    close: CloseFn,
) -> bool {
    forall|i: int|
        0 <= i < targets.len() ==> process_madvise::may_collapse(
            (#[trigger] targets[i]).pid,
            targets[i].maps,
            open,
            collapse,
            close,
        )
}

/// What a cycle may call once it has its targets: nothing without one; else the
/// regions are marked under the byte cap, the statistics of KSM are read, and the
/// regions are collapsed where these report many volatile pages. A dry run neither
/// marks nor collapses.
pub open spec fn may_act<
    W,
    ListFn: Fn(W) -> (Option<Vec<u32>>, W),
    StatusFn: Fn(W, u32) -> (Option<ProcessStatus>, W),
    KsmFn: Fn(W, u32) -> (Option<KsmProcStat>, W),
    MapsFn: Fn(W, u32) -> (Option<Vec<MapsEntry>>, W),
    StatsFn: Fn(W) -> (Option<KsmStats>, W),
    FindFn: Fn(W, u32) -> (Result<u64, String>, W),
    InjectFn: Fn(W, u32, u64, usize, u64) -> (Result<(), String>, W),
    OpenFn: Fn(W, u32) -> (Result<i32, String>, W),
    CollapseFn: Fn(W, i32, u64, usize) -> (Result<(), String>, W),
    CloseFn: Fn(W, i32) -> W,
>(
    config: &ScannerConfig,
    dry_run: bool,
    targets: Seq<TargetView>,
    reads: &ScanReads<ListFn, StatusFn, KsmFn, MapsFn, StatsFn>,
    calls: &ScanCalls<FindFn, InjectFn, OpenFn, CollapseFn, CloseFn>,
) -> bool {
    targets.len() > 0 ==> {
        &&& byte_cap(config) <= u64::MAX
        &&& may_merge_targets(
            targets,
            byte_cap(config) as u64,
            dry_run,
            calls.find_syscall,
            calls.inject,
        )
        &&& forall|w: W| #[trigger] call_requires(reads.ksm, (w,))
        &&& forall|w: W, ksm: Option<KsmStats>, v: W| #[trigger]
            call_ensures(reads.ksm, (w,), (ksm, v)) && should_collapse(dry_run, ksm)
                ==> may_collapse_all(targets, calls.open, calls.collapse, calls.close)
    }
}

/// What a cycle outside the stabilization window may call: it lists the processes,
/// selects among those that were listed, and acts on what was selected.
pub open spec fn may_scan<
    W,
    ListFn: Fn(W) -> (Option<Vec<u32>>, W),
    StatusFn: Fn(W, u32) -> (Option<ProcessStatus>, W),
    KsmFn: Fn(W, u32) -> (Option<KsmProcStat>, W),
    MapsFn: Fn(W, u32) -> (Option<Vec<MapsEntry>>, W),
    StatsFn: Fn(W) -> (Option<KsmStats>, W),
    FindFn: Fn(W, u32) -> (Result<u64, String>, W),
    InjectFn: Fn(W, u32, u64, usize, u64) -> (Result<(), String>, W),
    OpenFn: Fn(W, u32) -> (Result<i32, String>, W),
    CollapseFn: Fn(W, i32, u64, usize) -> (Result<(), String>, W),
    CloseFn: Fn(W, i32) -> W,
>(
    config: &ScannerConfig,
    dry_run: bool,
    reads: &ScanReads<ListFn, StatusFn, KsmFn, MapsFn, StatsFn>,
    calls: &ScanCalls<FindFn, InjectFn, OpenFn, CollapseFn, CloseFn>,
    from: W,
) -> bool {
    &&& call_requires(reads.list, (from,))
    &&& forall|pids: Vec<u32>, known: W| #[trigger]
        call_ensures(reads.list, (from,), (Some(pids), known)) ==> may_select(
            config,
            pids@,
            reads.status,
            reads.ksm_stat,
            reads.maps,
            known,
        )
    &&& forall|pids: Vec<u32>, known: W, readings: Readings, to: W|
        #[trigger] call_ensures(reads.list, (from,), (Some(pids), known))
            && #[trigger] readings.happened(
            config,
            pids@,
            reads.status,
            reads.ksm_stat,
            reads.maps,
            known,
            to,
        ) ==> may_act(config, dry_run, readings.targets(config), reads, calls)
}

/// Whether the selection gives these targets and takes the statistics from
/// `before` to `after`.
pub open spec fn selects<
    W,
    ListFn: Fn(W) -> (Option<Vec<u32>>, W),
    StatusFn: Fn(W, u32) -> (Option<ProcessStatus>, W),
    KsmFn: Fn(W, u32) -> (Option<KsmProcStat>, W),
    MapsFn: Fn(W, u32) -> (Option<Vec<MapsEntry>>, W),
    StatsFn: Fn(W) -> (Option<KsmStats>, W),
>(
    config: &ScannerConfig,
    pids: Seq<u32>,
    reads: &ScanReads<ListFn, StatusFn, KsmFn, MapsFn, StatsFn>,
    targets: Seq<(u32, Vec<MapsEntry>)>,
    before: ScannerStats,
    after: ScannerStats,
    from: W,
    to: W,
) -> bool {
    exists|readings: Readings|
        {
            &&& #[trigger] readings.happened(
                config,
                pids,
                reads.status,
                reads.ksm_stat,
                reads.maps,
                from,
                to,
            )
            &&& target_views(targets) == readings.targets(config)
            &&& after == readings.counted(config, before)
        }
}

/// Whether adding the results takes the statistics from `before` to `after`.
pub open spec fn adds(
    results: Map<u32, MadviseResult>,
    before: ScannerStats,
    after: ScannerStats,
) -> bool {
    exists|order: Seq<u32>|
        #[trigger] covers(order, results) && after == before.with_results(results, order)
}

/// Whether the collapsing part of a cycle takes the statistics from `before` to
/// `after`: it runs where there are targets and KSM reports many volatile pages,
/// and not in a dry run.
pub open spec fn collapses<
    W,
    ListFn: Fn(W) -> (Option<Vec<u32>>, W),
    StatusFn: Fn(W, u32) -> (Option<ProcessStatus>, W),
    KsmFn: Fn(W, u32) -> (Option<KsmProcStat>, W),
    MapsFn: Fn(W, u32) -> (Option<Vec<MapsEntry>>, W),
    StatsFn: Fn(W) -> (Option<KsmStats>, W),
    FindFn: Fn(W, u32) -> (Result<u64, String>, W),
    InjectFn: Fn(W, u32, u64, usize, u64) -> (Result<(), String>, W),
    OpenFn: Fn(W, u32) -> (Result<i32, String>, W),
    CollapseFn: Fn(W, i32, u64, usize) -> (Result<(), String>, W),
    CloseFn: Fn(W, i32) -> W,
>(
    targets: Seq<(u32, Vec<MapsEntry>)>,
    dry_run: bool,
    reads: &ScanReads<ListFn, StatusFn, KsmFn, MapsFn, StatsFn>,
    calls: &ScanCalls<FindFn, InjectFn, OpenFn, CollapseFn, CloseFn>,
    before: ScannerStats,
    after: ScannerStats,
    from: W,
    to: W,
) -> bool {
    if targets.len() == 0 {
        after == before && to == from
    } else {
        exists|ksm: Option<KsmStats>, read: W|
            #[trigger] call_ensures(reads.ksm, (from,), (ksm, read)) && if should_collapse(
                dry_run,
                ksm,
            ) {
                Scanner::collapsed(
                    targets,
                    calls.open,
                    calls.collapse,
                    calls.close,
                    before,
                    after,
                    read,
                    to,
                )
            } else {
                after == before && to == read
            }
    }
}

/// Whether acting on the targets gave these results, took the statistics from
/// `before` to `after` and led from one world to the other: the targets are marked,
/// and then collapsed.
pub open spec fn acts<
    W,
    ListFn: Fn(W) -> (Option<Vec<u32>>, W),
    StatusFn: Fn(W, u32) -> (Option<ProcessStatus>, W),
    KsmFn: Fn(W, u32) -> (Option<KsmProcStat>, W),
    MapsFn: Fn(W, u32) -> (Option<Vec<MapsEntry>>, W),
    StatsFn: Fn(W) -> (Option<KsmStats>, W),
    FindFn: Fn(W, u32) -> (Result<u64, String>, W),
    InjectFn: Fn(W, u32, u64, usize, u64) -> (Result<(), String>, W),
    OpenFn: Fn(W, u32) -> (Result<i32, String>, W),
    CollapseFn: Fn(W, i32, u64, usize) -> (Result<(), String>, W),
    CloseFn: Fn(W, i32) -> W,
>(
    config: &ScannerConfig,
    dry_run: bool,
    reads: &ScanReads<ListFn, StatusFn, KsmFn, MapsFn, StatsFn>,
    calls: &ScanCalls<FindFn, InjectFn, OpenFn, CollapseFn, CloseFn>,
    targets: Seq<(u32, Vec<MapsEntry>)>,
    results: Map<u32, MadviseResult>,
    before: ScannerStats,
    after: ScannerStats,
    from: W,
    to: W,
) -> bool {
    exists|marked: W, added: ScannerStats|
        {
            &&& #[trigger] madvise::all_merged_as(
                targets,
                byte_cap(config) as u64,
                dry_run,
                calls.find_syscall,
                calls.inject,
                from,
                results,
                marked,
            )
            &&& #[trigger] adds(results, before, added)
            &&& collapses(targets, dry_run, reads, calls, added, after, marked, to)
        }
}

/// Whether a cycle that ran found these targets, marked them with these results and
/// took the statistics from `before` to `after`.
pub open spec fn ran_as<
    W,
    ListFn: Fn(W) -> (Option<Vec<u32>>, W),
    StatusFn: Fn(W, u32) -> (Option<ProcessStatus>, W),
    KsmFn: Fn(W, u32) -> (Option<KsmProcStat>, W),
    MapsFn: Fn(W, u32) -> (Option<Vec<MapsEntry>>, W),
    StatsFn: Fn(W) -> (Option<KsmStats>, W),
    FindFn: Fn(W, u32) -> (Result<u64, String>, W),
    InjectFn: Fn(W, u32, u64, usize, u64) -> (Result<(), String>, W),
    OpenFn: Fn(W, u32) -> (Result<i32, String>, W),
    CollapseFn: Fn(W, i32, u64, usize) -> (Result<(), String>, W),
    CloseFn: Fn(W, i32) -> W,
>(
    config: &ScannerConfig,
    dry_run: bool,
    pids: Seq<u32>,
    reads: &ScanReads<ListFn, StatusFn, KsmFn, MapsFn, StatsFn>,
    calls: &ScanCalls<FindFn, InjectFn, OpenFn, CollapseFn, CloseFn>,
    targets: Seq<(u32, Vec<MapsEntry>)>,
    results: Map<u32, MadviseResult>,
    before: ScannerStats,
    after: ScannerStats,
    from: W,
    to: W,
) -> bool {
    exists|selected: ScannerStats, chosen: W|
        {
            &&& #[trigger] selects(config, pids, reads, targets, before, selected, from, chosen)
            &&& acts(
                config,
                dry_run,
                reads,
                calls,
                targets,
                results,
                selected,
                after,
                chosen,
                to,
            )
        }
}

/// Whether a cycle that could list the processes found these targets among them,
/// marked them with these results and took the statistics from `before` to `after`.
pub open spec fn listed_and_ran<
    W,
    ListFn: Fn(W) -> (Option<Vec<u32>>, W),
    StatusFn: Fn(W, u32) -> (Option<ProcessStatus>, W),
    KsmFn: Fn(W, u32) -> (Option<KsmProcStat>, W),
    MapsFn: Fn(W, u32) -> (Option<Vec<MapsEntry>>, W),
    StatsFn: Fn(W) -> (Option<KsmStats>, W),
    FindFn: Fn(W, u32) -> (Result<u64, String>, W),
    InjectFn: Fn(W, u32, u64, usize, u64) -> (Result<(), String>, W),
    OpenFn: Fn(W, u32) -> (Result<i32, String>, W),
    CollapseFn: Fn(W, i32, u64, usize) -> (Result<(), String>, W),
    CloseFn: Fn(W, i32) -> W,
>(
    config: &ScannerConfig,
    dry_run: bool,
    reads: &ScanReads<ListFn, StatusFn, KsmFn, MapsFn, StatsFn>,
    calls: &ScanCalls<FindFn, InjectFn, OpenFn, CollapseFn, CloseFn>,
    targets: Seq<(u32, Vec<MapsEntry>)>,
    results: Map<u32, MadviseResult>,
    before: ScannerStats,
    after: ScannerStats,
    from: W,
    to: W,
) -> bool {
    exists|pids: Vec<u32>, known: W| #[trigger]
        call_ensures(reads.list, (from,), (Some(pids), known)) && ran_as(
            config,
            dry_run,
            pids@,
            reads,
            calls,
            targets,
            results,
            before,
            after,
            known,
            to,
        )
}

proof fn lemma_target_is_finalist(
    candidates: Seq<CandidateView>,
    maps: Seq<Option<Vec<MapsEntry>>>,
    t: int,
) -> (j: int)
    requires
        candidates.len() == maps.len(),
        0 <= t < targets_of(candidates, maps).len(),
    ensures
        targets_of(candidates, maps).len() <= candidates.len(),
        0 <= j < candidates.len(),
        targets_of(candidates, maps)[t].pid == candidates[j].pid,
        madvise::eligible_in(targets_of(candidates, maps)[t].maps).len() > 0,
    decreases candidates.len(),
{
    let before = targets_of(candidates.drop_last(), maps.drop_last());
    lemma_targets_len(candidates.drop_last(), maps.drop_last());
    if t < before.len() {
        lemma_target_is_finalist(candidates.drop_last(), maps.drop_last(), t)
    } else {
        candidates.len() - 1
    }
}

proof fn lemma_targets_len(candidates: Seq<CandidateView>, maps: Seq<Option<Vec<MapsEntry>>>)
    requires
        candidates.len() == maps.len(),
    ensures
        targets_of(candidates, maps).len() <= candidates.len(),
    decreases candidates.len(),
{
    if candidates.len() > 0 {
        lemma_targets_len(candidates.drop_last(), maps.drop_last());
    }
}

proof fn lemma_l25_is_l1(
    candidates: Seq<CandidateView>,
    stats: Seq<Option<KsmProcStat>>,
    j: int,
) -> (i: int)
    requires
        candidates.len() == stats.len(),
        0 <= j < l25_of(candidates, stats).len(),
    ensures
        0 <= i < candidates.len(),
        l25_of(candidates, stats)[j] == candidates[i],
        not_merged_yet(stats[i]),
        not_unprofitable(stats[i]),
    decreases candidates.len(),
{
    let before = l25_of(candidates.drop_last(), stats.drop_last());
    if j < before.len() {
        lemma_l25_is_l1(candidates.drop_last(), stats.drop_last(), j)
    } else {
        candidates.len() - 1
    }
}

proof fn lemma_l1_has_status(
    statuses: Seq<Option<ProcessStatus>>,
    config: &ScannerConfig,
    i: int,
) -> (k: int)
    requires
        0 <= i < l1_of(statuses, config).len(),
    ensures
        0 <= k < statuses.len(),
        statuses[k] matches Some(status) && l1_candidate(status@, config) == Some(
            l1_of(statuses, config)[i],
        ),
    decreases statuses.len(),
{
    let before = l1_of(statuses.drop_last(), config);
    if i < before.len() {
        lemma_l1_has_status(statuses.drop_last(), config, i)
    } else {
        statuses.len() - 1
    }
}

/// Every target passed every filter: its process is no kernel process, is not on
/// the blocklist and is large enough; KSM has not merged it yet and does not call
/// it unprofitable, by the statistics that were read of that process; and it has an
/// eligible region. There are never more targets than the configuration allows.
pub proof fn law_targets_pass_every_filter(readings: Readings, config: &ScannerConfig, t: int)
    requires
        readings.ksm_stats.len() == readings.l1(config).len(),
        readings.maps.len() == readings.finalists(config).len(),
        0 <= t < readings.targets(config).len(),
    ensures
        readings.targets(config).len() <= config.max_candidates_per_cycle,
        madvise::eligible_in(readings.targets(config)[t].maps).len() > 0,
        exists|k: int, i: int|
            {
                &&& 0 <= k < readings.statuses.len()
                &&& #[trigger] readings.statuses[k] matches Some(status)
                &&& l1_candidate(status@, config) matches Some(c)
                &&& c.pid == readings.targets(config)[t].pid
                &&& readings.l1(config)[i] == c
                &&& 0 <= i < readings.ksm_stats.len()
                &&& not_merged_yet(#[trigger] readings.ksm_stats[i])
                &&& not_unprofitable(readings.ksm_stats[i])
            },
{
    broadcast use vstd::seq_lib::group_to_multiset_ensures;

    let l1 = readings.l1(config);
    let l25 = l25_of(l1, readings.ksm_stats);
    let finalists = readings.finalists(config);
    let j = lemma_target_is_finalist(finalists, readings.maps, t);
    law_ranking_sorts(l25);
    let c = finalists[j];
    assert(ranked(l25)[j] == c);
    assert(ranked(l25).contains(c));
    assert(ranked(l25).to_multiset().count(c) > 0);
    assert(l25.contains(c));
    let n = choose|n: int| 0 <= n < l25.len() && l25[n] == c;
    let i = lemma_l25_is_l1(l1, readings.ksm_stats, n);
    let k = lemma_l1_has_status(readings.statuses, config, i);
    assert(readings.statuses[k] is Some);
    assert(not_merged_yet(readings.ksm_stats[i]));
}

/// A dry run touches no process: all that it calls, once it has its targets, is the
/// read of the statistics of KSM.
pub proof fn law_dry_run_touches_no_process<
    W,
    ListFn: Fn(W) -> (Option<Vec<u32>>, W),
    StatusFn: Fn(W, u32) -> (Option<ProcessStatus>, W),
    KsmFn: Fn(W, u32) -> (Option<KsmProcStat>, W),
    MapsFn: Fn(W, u32) -> (Option<Vec<MapsEntry>>, W),
    StatsFn: Fn(W) -> (Option<KsmStats>, W),
    FindFn: Fn(W, u32) -> (Result<u64, String>, W),
    InjectFn: Fn(W, u32, u64, usize, u64) -> (Result<(), String>, W),
    OpenFn: Fn(W, u32) -> (Result<i32, String>, W),
    CollapseFn: Fn(W, i32, u64, usize) -> (Result<(), String>, W),
    CloseFn: Fn(W, i32) -> W,
>(
    config: &ScannerConfig,
    reads: &ScanReads<ListFn, StatusFn, KsmFn, MapsFn, StatsFn>,
    calls: &ScanCalls<FindFn, InjectFn, OpenFn, CollapseFn, CloseFn>,
    targets: Seq<(u32, Vec<MapsEntry>)>,
    results: Map<u32, MadviseResult>,
    before: ScannerStats,
    after: ScannerStats,
    from: W,
    to: W,
)
    requires
        acts(config, true, reads, calls, targets, results, before, after, from, to),
    ensures
        targets.len() == 0 ==> to == from,
        targets.len() > 0 ==> exists|ksm: Option<KsmStats>| #[trigger]
            call_ensures(reads.ksm, (from,), (ksm, to)),
{
    let (marked, added) = choose|marked: W, added: ScannerStats|
        {
            &&& #[trigger] madvise::all_merged_as(
                targets,
                byte_cap(config) as u64,
                true,
                calls.find_syscall,
                calls.inject,
                from,
                results,
                marked,
            )
            &&& #[trigger] adds(results, before, added)
            &&& collapses(targets, true, reads, calls, added, after, marked, to)
        };
    madvise::law_dry_run_calls_nothing(
        targets,
        byte_cap(config) as u64,
        calls.find_syscall,
        calls.inject,
        from,
        results,
        marked,
    );
}

/// A level change of the governor never holds the scanner back: whether a cycle is
/// deferred depends on the scanner's own last action alone.
pub proof fn law_governor_does_not_defer_the_scanner(
    a: GovernorState,
    b: GovernorState,
    now: u64,
    secs: u64,
)
    requires
        a.last_scanner_action == b.last_scanner_action,
    ensures
        state::spec_passed(a.last_scanner_action, now, secs) == state::spec_passed(
            b.last_scanner_action,
            now,
            secs,
        ),
{
}

/// No process whose name holds a pattern of the blocklist, whichever it is, is a
/// candidate; nor is a kernel process or one that is too small. Every other process is
/// one, under its own number and name and with its size in megabytes.
pub proof fn law_candidates_are_not_blocked(
    status: procfs::ProcessStatusView,
    config: &ScannerConfig,
    b: int,
)
    ensures
        0 <= b < config.blocklist@.len() && text::contains_text(
            status.name,
            config.blocklist@[b]@,
        ) ==> l1_candidate(status, config) is None,
        status.pid <= 2 ==> l1_candidate(status, config) is None,
        status.vm_anon_kb < 1024 * config.min_anon_rss_mb ==> l1_candidate(status, config) is None,
        status.pid > 2 && status.vm_anon_kb >= 1024 * config.min_anon_rss_mb && (forall|i: int|
            0 <= i < config.blocklist@.len() ==> !text::contains_text(
                status.name,
                (#[trigger] config.blocklist@[i])@,
            )) ==> l1_candidate(status, config) == Some(
            CandidateView {
                pid: status.pid,
                name: status.name,
                anon_rss_mb: status.vm_anon_kb / 1024,
            },
        ),
{
    let patterns = text::strings(config.blocklist@);
    if 0 <= b < config.blocklist@.len() {
        assert(patterns[b] == config.blocklist@[b]@);
    }
    assert forall|i: int| 0 <= i < patterns.len() implies #[trigger] patterns[i]
        == config.blocklist@[i]@ by {}
}

/// Whether a process is worth marking by what its status says: it is no kernel process,
/// its name holds none of the patterns of the blocklist, and it is large enough.
pub open spec fn worthwhile(status: procfs::ProcessStatusView, config: &ScannerConfig) -> bool {
    &&& status.pid > 2
    &&& status.vm_anon_kb >= 1024 * config.min_anon_rss_mb
    &&& forall|b: int|
        0 <= b < config.blocklist@.len() ==> !text::contains_text(
            status.name,
            (#[trigger] config.blocklist@[b])@,
        )
}

/// A process that is marked was seen with a status that makes it worthwhile: its name
/// holds no pattern of the blocklist, whichever it is.
pub proof fn law_targets_are_not_blocked(readings: Readings, config: &ScannerConfig, t: int)
    requires
        readings.ksm_stats.len() == readings.l1(config).len(),
        readings.maps.len() == readings.finalists(config).len(),
        0 <= t < readings.targets(config).len(),
    ensures
        exists|k: int|
            {
                &&& 0 <= k < readings.statuses.len()
                &&& #[trigger] readings.statuses[k] matches Some(status)
                &&& status.pid == readings.targets(config)[t].pid
                &&& worthwhile(status@, config)
            },
{
    law_targets_pass_every_filter(readings, config, t);
    let (k, i) = choose|k: int, i: int|
        {
            &&& 0 <= k < readings.statuses.len()
            &&& #[trigger] readings.statuses[k] matches Some(status)
            &&& l1_candidate(status@, config) matches Some(c)
            &&& c.pid == readings.targets(config)[t].pid
            &&& readings.l1(config)[i] == c
            &&& 0 <= i < readings.ksm_stats.len()
            &&& not_merged_yet(#[trigger] readings.ksm_stats[i])
            &&& not_unprofitable(readings.ksm_stats[i])
        };
    let status = readings.statuses[k]->0;
    assert forall|b: int| 0 <= b < config.blocklist@.len() implies !text::contains_text(
        status@.name,
        (#[trigger] config.blocklist@[b])@,
    ) by {
        law_candidates_are_not_blocked(status@, config, b);
    }
    assert(worthwhile(status@, config));
}

proof fn lemma_l1_append(
    a: Seq<Option<ProcessStatus>>,
    b: Seq<Option<ProcessStatus>>,
    config: &ScannerConfig,
)
    ensures
        l1_of(a + b, config) == l1_of(a, config) + l1_of(b, config),
    decreases b.len(),
{
    if b.len() == 0 {
        assert(a + b =~= a);
        assert(l1_of(a, config) + l1_of(b, config) =~= l1_of(a, config));
    } else {
        lemma_l1_append(a, b.drop_last(), config);
        assert((a + b).drop_last() =~= a + b.drop_last());
        assert((a + b).last() == b.last());
        assert(l1_of(a + b, config) =~= l1_of(a, config) + l1_of(b, config));
    }
}

/// A process that is worthwhile becomes a candidate, in its place among the others.
pub proof fn law_worthwhile_processes_are_candidates(
    readings: Readings,
    config: &ScannerConfig,
    k: int,
)
    requires
        0 <= k < readings.statuses.len(),
        readings.statuses[k] matches Some(status) && worthwhile(status@, config),
    ensures
        ({
            let status = readings.statuses[k]->0;
            readings.l1(config)[l1_of(readings.statuses.take(k), config).len() as int] == (
            CandidateView {
                pid: status.pid,
                name: status.name@,
                anon_rss_mb: status.vm_anon_kb / 1024,
            })
        }),
        l1_of(readings.statuses.take(k), config).len() < readings.l1(config).len(),
{
    let all = readings.statuses;
    let status = all[k]->0;
    law_candidates_are_not_blocked(status@, config, 0);
    let first = all.take(k + 1);
    lemma_l1_append(first, all.skip(k + 1), config);
    assert(all =~= first + all.skip(k + 1));
    assert(first.drop_last() =~= all.take(k));
    assert(first.last() == all[k]);
}

/// The filters by the KSM statistics of a process: one that is merged as a whole is left
/// out, and so is one that costs more than it gains; nothing else is.
pub proof fn law_ksm_filters(stat: Option<KsmProcStat>)
    ensures
        not_merged_yet(stat) && not_unprofitable(stat) <==> match stat {
            None => true,
            Some(s) => !s.merge_any && s.process_profit >= 0,
        },
        not_merged_yet(stat) <==> (stat matches Some(s) ==> s.merge_any == false),
{
}

proof fn lemma_l25_holds(candidates: Seq<CandidateView>, stats: Seq<Option<KsmProcStat>>, i: int)
    requires
        candidates.len() == stats.len(),
        0 <= i < candidates.len(),
        not_merged_yet(stats[i]) && not_unprofitable(stats[i]),
    ensures
        l25_of(candidates, stats).contains(candidates[i]),
    decreases candidates.len(),
{
    let before = l25_of(candidates.drop_last(), stats.drop_last());
    let all = l25_of(candidates, stats);
    if i < candidates.len() - 1 {
        lemma_l25_holds(candidates.drop_last(), stats.drop_last(), i);
        let k = choose|k: int| 0 <= k < before.len() && before[k] == candidates[i];
        assert(all[k] == candidates[i]);
    } else {
        assert(all[before.len() as int] == candidates[i]);
    }
}

/// A candidate that is neither merged as a whole nor unprofitable gets its memory map
/// read, as long as the candidates are not more than the configuration allows.
pub proof fn law_passing_candidates_are_finalists(
    readings: Readings,
    config: &ScannerConfig,
    i: int,
)
    requires
        readings.ksm_stats.len() == readings.l1(config).len(),
        readings.l1(config).len() <= config.max_candidates_per_cycle,
        0 <= i < readings.l1(config).len(),
        readings.ksm_stats[i] matches Some(s) ==> !s.merge_any && s.process_profit >= 0,
    ensures
        readings.finalists(config).contains(readings.l1(config)[i]),
{
    broadcast use vstd::seq_lib::group_to_multiset_ensures;

    let l1 = readings.l1(config);
    let l25 = l25_of(l1, readings.ksm_stats);
    lemma_l25_holds(l1, readings.ksm_stats, i);
    lemma_l25_prefix(l1, readings.ksm_stats);
    law_ranking_sorts(l25);
    assert(l25.to_multiset().count(l1[i]) > 0);
    assert(ranked(l25).contains(l1[i]));
    assert(readings.finalists(config) == ranked(l25));
}

/// A finalist whose memory map has an eligible region is a target, with that map.
pub proof fn law_finalists_with_memory_are_targets(
    candidates: Seq<CandidateView>,
    maps: Seq<Option<Vec<MapsEntry>>>,
    j: int,
    m: Vec<MapsEntry>,
    r: int,
)
    requires
        candidates.len() == maps.len(),
        0 <= j < candidates.len(),
        maps[j] == Some(m),
        0 <= r < m@.len(),
        madvise::is_eligible(m@[r]@),
    ensures
        targets_of(candidates, maps).contains(
            TargetView { pid: candidates[j].pid, maps: procfs::maps_view(m@) },
        ),
    decreases candidates.len(),
{
    let target = TargetView { pid: candidates[j].pid, maps: procfs::maps_view(m@) };
    let before = targets_of(candidates.drop_last(), maps.drop_last());
    let all = targets_of(candidates, maps);
    if j < candidates.len() - 1 {
        law_finalists_with_memory_are_targets(
            candidates.drop_last(),
            maps.drop_last(),
            j,
            m,
            r,
        );
        let k = choose|k: int| 0 <= k < before.len() && before[k] == target;
        assert(all[k] == target);
    } else {
        madvise::lemma_eligible_in(target.maps);
        assert(target.maps[r] == m@[r]@);
        assert(madvise::eligible_in(target.maps).contains(target.maps[r]));
        assert(madvise::eligible_in(target.maps).len() > 0);
        assert(all[before.len() as int] == target);
    }
}

/// The largest candidates come first, and as many are kept as are allowed.
pub proof fn law_as_many_candidates_are_kept_as_are_allowed(
    candidates: Seq<CandidateView>,
    max: usize,
)
    ensures
        top(candidates, max).len() == (if candidates.len() <= max {
            candidates.len()
        } else {
            max as nat
        }),
        forall|i: int, j: int|
            0 <= i <= j < top(candidates, max).len() ==> (#[trigger] top(
                candidates,
                max,
            )[i]).anon_rss_mb >= (#[trigger] top(candidates, max)[j]).anon_rss_mb,
{
    law_ranking_sorts(candidates);
}

/// The cap on what is marked in one process is the configured number of megabytes, of
/// 1048576 bytes each. A process whose eligible regions stay within it, and are not more
/// than 256, has every one of them tried; and no process has more bytes marked.
pub proof fn law_megabytes_cap_the_marking<
    W,
    ListFn: Fn(W) -> (Option<Vec<u32>>, W),
    StatusFn: Fn(W, u32) -> (Option<ProcessStatus>, W),
    KsmFn: Fn(W, u32) -> (Option<KsmProcStat>, W),
    MapsFn: Fn(W, u32) -> (Option<Vec<MapsEntry>>, W),
    StatsFn: Fn(W) -> (Option<KsmStats>, W),
    FindFn: Fn(W, u32) -> (Result<u64, String>, W),
    InjectFn: Fn(W, u32, u64, usize, u64) -> (Result<(), String>, W),
    OpenFn: Fn(W, u32) -> (Result<i32, String>, W),
    CollapseFn: Fn(W, i32, u64, usize) -> (Result<(), String>, W),
    CloseFn: Fn(W, i32) -> W,
>(
    config: &ScannerConfig,
    dry_run: bool,
    reads: &ScanReads<ListFn, StatusFn, KsmFn, MapsFn, StatsFn>,
    calls: &ScanCalls<FindFn, InjectFn, OpenFn, CollapseFn, CloseFn>,
    targets: Seq<(u32, Vec<MapsEntry>)>,
    results: Map<u32, MadviseResult>,
    before: ScannerStats,
    after: ScannerStats,
    from: W,
    to: W,
    i: int,
)
    requires
        acts(config, dry_run, reads, calls, targets, results, before, after, from, to),
        config.max_mergeable_per_process_mb * 1048576 <= u64::MAX,
        0 <= i < targets.len(),
        forall|k: int| i < k < targets.len() ==> (#[trigger] targets[k]).0 != targets[i].0,
        madvise::eligible_ordered(procfs::maps_view(targets[i].1@)),
    ensures
        results.contains_key(targets[i].0),
        ({
            let regions = madvise::eligible_in(procfs::maps_view(targets[i].1@));
            let r = results[targets[i].0];
            &&& regions.len() <= 256 && madvise::span(regions)
                <= config.max_mergeable_per_process_mb * 1024 * 1024 ==> r.regions_attempted
                == regions.len()
            &&& r.total_bytes_marked <= config.max_mergeable_per_process_mb * 1024 * 1024
            &&& r.regions_attempted <= regions.len()
            &&& r.regions_attempted < regions.len() && r.regions_attempted < 256
                ==> madvise::span(regions.take(r.regions_attempted + 1))
                > config.max_mergeable_per_process_mb * 1024 * 1024
        }),
{
    let cap = byte_cap(config) as u64;
    let pid = targets[i].0;
    let maps = procfs::maps_view(targets[i].1@);
    let (marked, added) = choose|marked: W, added: ScannerStats|
        {
            &&& #[trigger] madvise::all_merged_as(
                targets,
                cap,
                dry_run,
                calls.find_syscall,
                calls.inject,
                from,
                results,
                marked,
            )
            &&& #[trigger] adds(results, before, added)
        };
    let (each, worlds) = choose|each: Seq<MadviseResult>, worlds: Seq<W>|
        {
            &&& #[trigger] madvise::each_merged_as(
                targets,
                cap,
                dry_run,
                calls.find_syscall,
                calls.inject,
                each,
                worlds,
                from,
                marked,
            )
            &&& madvise::last_of_each(targets, each, results)
        };
    madvise::law_last_target_counts(targets, i, pid);
    assert(madvise::last_of_each(targets, each, results));
    assert(madvise::last_target(targets, pid) == Some(i));
    if !results.contains_key(pid) {
        assert(madvise::last_target(targets, pid) is None);
    }
    assert(results[pid] == each[i]);
    assert(madvise::merged_as(
        pid,
        maps,
        cap,
        dry_run,
        calls.find_syscall,
        calls.inject,
        worlds[i],
        each[i],
        worlds[i + 1],
    ));
    madvise::law_batch_takes_what_fits(maps, cap, 0);
    madvise::law_results_add_up(
        pid,
        maps,
        cap,
        dry_run,
        calls.find_syscall,
        calls.inject,
        worlds[i],
        each[i],
        worlds[i + 1],
    );
    let regions = madvise::eligible_in(maps);
    if regions.len() <= 256 && madvise::span(regions) <= cap {
        madvise::law_everything_is_tried_where_it_fits(maps, cap);
    }
}

/// Collapsing is tried exactly if the statistics were read, more than a thousand pages
/// are volatile, and it is no dry run.
pub proof fn law_volatile_pages_call_for_collapsing(dry_run: bool, ksm: Option<KsmStats>)
    ensures
        should_collapse(dry_run, ksm) <==> match ksm {
            None => false,
            Some(stats) => stats.pages_volatile >= 1001 && !dry_run,
        },
{
}

/// The bytes of the eligible regions are those from the start of each to its end.
pub proof fn law_region_bytes_are_spans(maps: Seq<MapsEntryView>)
    ensures
        region_bytes(maps) == madvise::span(maps),
    decreases maps.len(),
{
    if maps.len() > 0 {
        law_region_bytes_are_spans(maps.drop_last());
    }
}

/// What the filters count: the candidates of the first, those of them that are not merged
/// yet, and those of these that are unprofitable. No other counter moves.
pub proof fn law_filters_are_counted(
    readings: Readings,
    config: &ScannerConfig,
    stats: ScannerStats,
)
    requires
        readings.ksm_stats.len() == readings.l1(config).len(),
        stats.processes_filtered_l1 + readings.l1(config).len() <= u64::MAX,
        stats.processes_filtered_l2 + readings.l1(config).len() <= u64::MAX,
        stats.processes_filtered_l25_profit + readings.l1(config).len() <= u64::MAX,
    ensures
        ({
            let after = readings.counted(config, stats);
            &&& after.processes_filtered_l1 == stats.processes_filtered_l1 + readings.l1(
                config,
            ).len()
            &&& stats.processes_filtered_l2 <= after.processes_filtered_l2
            &&& after.processes_filtered_l2 - stats.processes_filtered_l2 == (
            after.processes_filtered_l25_profit - stats.processes_filtered_l25_profit) + l25_of(
                readings.l1(config),
                readings.ksm_stats,
            ).len()
            &&& after.processes_targeted == stats.processes_targeted
            &&& after.madvise_calls == stats.madvise_calls
            &&& after.total_bytes_marked == stats.total_bytes_marked
            &&& after.scan_cycles == stats.scan_cycles
            &&& after.skipped_stabilization == stats.skipped_stabilization
            &&& after.thp_collapsed == stats.thp_collapsed
        }),
{
    lemma_l25_prefix(readings.l1(config), readings.ksm_stats);
    lemma_filter_counts(readings.l1(config), readings.ksm_stats);
}

proof fn lemma_filter_counts(candidates: Seq<CandidateView>, stats: Seq<Option<KsmProcStat>>)
    requires
        candidates.len() == stats.len(),
    ensures
        l2_count(stats) == unprofitable_count(stats) + l25_of(candidates, stats).len(),
    decreases candidates.len(),
{
    if candidates.len() > 0 {
        lemma_filter_counts(candidates.drop_last(), stats.drop_last());
    }
}

/// A result counts its process once, its regions and its bytes, and nothing else.
pub proof fn law_results_are_counted(stats: ScannerStats, result: MadviseResult)
    requires
        stats.processes_targeted < u64::MAX,
        stats.madvise_calls + result.regions_merged <= u64::MAX,
        stats.total_bytes_marked + result.total_bytes_marked <= u64::MAX,
    ensures
        ({
            let after = stats.with_result(result);
            &&& after.processes_targeted == stats.processes_targeted + 1
            &&& after.madvise_calls == stats.madvise_calls + result.regions_merged
            &&& after.total_bytes_marked == stats.total_bytes_marked + result.total_bytes_marked
            &&& after.processes_filtered_l1 == stats.processes_filtered_l1
            &&& after.processes_filtered_l2 == stats.processes_filtered_l2
            &&& after.processes_filtered_l25_profit == stats.processes_filtered_l25_profit
            &&& after.scan_cycles == stats.scan_cycles
            &&& after.skipped_stabilization == stats.skipped_stabilization
            &&& after.thp_collapsed == stats.thp_collapsed
        }),
{
}

/// A collapsed target counts the ranges that were collapsed, and nothing else.
pub proof fn law_collapsed_ranges_are_counted(
    stats: ScannerStats,
    counts: Seq<usize>,
    count: usize,
)
    requires
        stats.with_collapsed(counts).thp_collapsed + count <= u64::MAX,
    ensures
        stats.with_collapsed(counts.push(count)) == (ScannerStats {
            thp_collapsed: (stats.with_collapsed(counts).thp_collapsed + count) as u64,
            ..stats.with_collapsed(counts)
        }),
        stats.with_collapsed(Seq::empty()) == stats,
{
    assert(counts.push(count).drop_last() =~= counts);
}

/// A new scanner has counted nothing.
pub proof fn law_new_scanner_has_counted_nothing()
    ensures
        ({
            let s = ScannerStats::zeroes();
            &&& s.processes_filtered_l1 == 0
            &&& s.processes_filtered_l2 == 0
            &&& s.processes_filtered_l25_profit == 0
            &&& s.processes_targeted == 0
            &&& s.madvise_calls == 0
            &&& s.total_bytes_marked == 0
            &&& s.scan_cycles == 0
            &&& s.skipped_stabilization == 0
            &&& s.thp_collapsed == 0
        }),
{
}

/// A memory map makes sense exactly if every eligible region ends where it begins or
/// behind that, and all of them together have at most as many bytes as a 64-bit number
/// can count.
pub proof fn law_sane_maps(maps: Seq<MapsEntryView>)
    ensures
        sane(maps) <==> {
            &&& forall|i: int|
                0 <= i < maps.len() && madvise::is_eligible(#[trigger] maps[i]) ==> maps[i].start
                    <= maps[i].end
            &&& madvise::span(madvise::eligible_in(maps)) <= 0xffff_ffff_ffff_ffff
        },
{
    let regions = madvise::eligible_in(maps);
    law_region_bytes_are_spans(regions);
    if madvise::eligible_ordered(maps) {
        assert forall|i: int| 0 <= i < maps.len() && madvise::is_eligible(
            #[trigger] maps[i],
        ) implies maps[i].start <= maps[i].end by {
            madvise::lemma_eligible_ordered(maps, i);
        }
    } else {
        let k = choose|k: int| 0 <= k < regions.len() && !(#[trigger] regions[k]).is_ordered();
        lemma_eligible_is_mapped(maps, k);
    }
}

proof fn lemma_eligible_is_mapped(maps: Seq<MapsEntryView>, k: int)
    requires
        0 <= k < madvise::eligible_in(maps).len(),
    ensures
        exists|i: int|
            0 <= i < maps.len() && #[trigger] maps[i] == madvise::eligible_in(maps)[k]
                && madvise::is_eligible(maps[i]),
    decreases maps.len(),
{
    let front = maps.drop_last();
    let before = madvise::eligible_in(front);
    if k < before.len() {
        lemma_eligible_is_mapped(front, k);
        let i = choose|i: int|
            0 <= i < front.len() && #[trigger] front[i] == before[k] && madvise::is_eligible(
                front[i],
            );
        assert(maps[i] == madvise::eligible_in(maps)[k]);
    } else {
        assert(maps[maps.len() - 1] == madvise::eligible_in(maps)[k]);
    }
}

/// What the statistics of a candidate count for: one that is not merged as a whole counts
/// as not merged yet, and as unprofitable too if it costs more than it gains.
pub proof fn law_filter_counts_add_up(stats: Seq<Option<KsmProcStat>>, s: Option<KsmProcStat>)
    ensures
        l2_count(stats.push(s)) - l2_count(stats) == (match s {
            Some(stat) => if stat.merge_any {
                0int
            } else {
                1int
            },
            None => 1int,
        }),
        unprofitable_count(stats.push(s)) - unprofitable_count(stats) == (match s {
            Some(stat) => if !stat.merge_any && stat.process_profit < 0 {
                1int
            } else {
                0int
            },
            None => 0int,
        }),
        l2_count(Seq::empty()) == 0,
        unprofitable_count(Seq::empty()) == 0,
{
    assert(stats.push(s).drop_last() =~= stats);
}

/// The regions that were marked in some processes, in all.
pub open spec fn regions_in(results: Map<u32, MadviseResult>, order: Seq<u32>) -> nat
    decreases order.len(),
{
    if order.len() == 0 {
        0
    } else {
        regions_in(results, order.skip(1)) + results[order[0]].regions_merged as nat
    }
}

proof fn lemma_regions_from_the_back(results: Map<u32, MadviseResult>, order: Seq<u32>)
    requires
        order.len() > 0,
    ensures
        regions_in(results, order) == regions_in(results, order.drop_last())
            + results[order.last()].regions_merged,
    decreases order.len(),
{
    if order.len() == 1 {
        assert(order.skip(1) =~= Seq::<u32>::empty());
        assert(order.drop_last() =~= Seq::<u32>::empty());
        assert(regions_in(results, order.skip(1)) == 0);
        assert(regions_in(results, order.drop_last()) == 0);
    } else {
        lemma_regions_from_the_back(results, order.skip(1));
        assert(order.skip(1).drop_last() =~= order.drop_last().skip(1));
        assert(order.skip(1).last() == order.last());
        assert(order.drop_last()[0] == order[0]);
    }
}

/// Every process with a result counts once, and all the regions that were marked count.
pub proof fn law_all_results_are_counted(
    stats: ScannerStats,
    results: Map<u32, MadviseResult>,
    order: Seq<u32>,
)
    requires
        stats.processes_targeted + order.len() <= u64::MAX,
        stats.madvise_calls + regions_in(results, order) <= u64::MAX,
    ensures
        ({
            let after = stats.with_results(results, order);
            &&& after.processes_targeted == stats.processes_targeted + order.len()
            &&& after.madvise_calls == stats.madvise_calls + regions_in(results, order)
            &&& after.scan_cycles == stats.scan_cycles
            &&& after.thp_collapsed == stats.thp_collapsed
        }),
        covers(order, results) ==> order.len() == results.dom().len() && (forall|pid: u32|
            order.contains(pid) <==> #[trigger] results.contains_key(pid)),
    decreases order.len(),
{
    if order.len() > 0 {
        lemma_regions_from_the_back(results, order);
        law_all_results_are_counted(stats, results, order.drop_last());
    }
    if covers(order, results) {
        order.unique_seq_to_set();
        assert forall|pid: u32| order.contains(pid) <==> #[trigger] results.contains_key(pid) by {
            assert(order.to_set().contains(pid) <==> order.contains(pid));
        }
    }
}

/// What is read of a process is read under its number: where the status, the KSM
/// statistics and the memory map depend on the number alone, each process, candidate and
/// finalist has its own.
pub proof fn law_readings_belong_to_their_process<
    W,
    StatusFn: Fn(W, u32) -> (Option<ProcessStatus>, W),
    KsmFn: Fn(W, u32) -> (Option<KsmProcStat>, W),
    MapsFn: Fn(W, u32) -> (Option<Vec<MapsEntry>>, W),
>(
    readings: Readings,
    config: &ScannerConfig,
    pids: Seq<u32>,
    read_status: StatusFn,
    read_ksm_stat: KsmFn,
    read_maps: MapsFn,
    status_of: spec_fn(u32) -> Option<ProcessStatus>,
    stat_of: spec_fn(u32) -> Option<KsmProcStat>,
    maps_of: spec_fn(u32) -> Option<Vec<MapsEntry>>,
    from: W,
    to: W,
    i: int,
)
    requires
        readings.happened(config, pids, read_status, read_ksm_stat, read_maps, from, to),
        forall|w: W, pid: u32, r: Option<ProcessStatus>, v: W| #[trigger]
            call_ensures(read_status, (w, pid), (r, v)) ==> r == status_of(pid),
        forall|w: W, pid: u32, r: Option<KsmProcStat>, v: W| #[trigger]
            call_ensures(read_ksm_stat, (w, pid), (r, v)) ==> r == stat_of(pid),
        forall|w: W, pid: u32, r: Option<Vec<MapsEntry>>, v: W| #[trigger]
            call_ensures(read_maps, (w, pid), (r, v)) ==> r == maps_of(pid),
    ensures
        readings.statuses.len() == pids.len(),
        readings.ksm_stats.len() == readings.l1(config).len(),
        readings.maps.len() == readings.finalists(config).len(),
        0 <= i < pids.len() ==> readings.statuses[i] == status_of(pids[i]),
        0 <= i < readings.l1(config).len() ==> readings.ksm_stats[i] == stat_of(
            readings.l1(config)[i].pid,
        ),
        0 <= i < readings.finalists(config).len() ==> readings.maps[i] == maps_of(
            readings.finalists(config)[i].pid,
        ),
{
    let (a, seen, b, filtered, c) = choose|
        a: Seq<W>,
        seen: W,
        b: Seq<W>,
        filtered: W,
        c: Seq<W>,
    |
        {
            &&& #[trigger] statuses_read(readings.statuses, pids, read_status, a, from, seen)
            &&& #[trigger] ksm_stats_read(
                readings.ksm_stats,
                readings.l1(config),
                read_ksm_stat,
                b,
                seen,
                filtered,
            )
            &&& #[trigger] maps_read(
                readings.maps,
                readings.finalists(config),
                read_maps,
                c,
                filtered,
                to,
            )
        };
    if 0 <= i < pids.len() {
        assert(call_ensures(read_status, (a[i], pids[i]), (readings.statuses[i], a[i + 1])));
    }
    if 0 <= i < readings.l1(config).len() {
        assert(call_ensures(
            read_ksm_stat,
            (b[i], readings.l1(config)[i].pid),
            (readings.ksm_stats[i], b[i + 1]),
        ));
    }
    if 0 <= i < readings.finalists(config).len() {
        assert(call_ensures(
            read_maps,
            (c[i], readings.finalists(config)[i].pid),
            (readings.maps[i], c[i + 1]),
        ));
    }
}

} // verus!
