//! The synthetic workload of the swap proxy's dry run.
//!
//! The same set of pages is written twice, first in passthrough mode and then
//! with deduplication; some pages are read back and some are discarded.

use vstd::prelude::*;

use crate::fingerprint::PAGE_SIZE;

verus! {

/// How many different pages the workload has.
pub const NUM_UNIQUE: u64 = 600;

/// How many pages each phase writes.
pub const NUM_TOTAL: u64 = 5000;

/// How many pages are read back.
pub const NUM_READS: u64 = 1000;

/// How many pages are discarded, from the first of the second phase on.
pub const NUM_DISCARDS: u64 = 1000;

/// One action of the workload. Pages are given by their number.
#[derive(Debug, Clone, Copy, PartialEq, Eq, Structural)]
pub enum SimulationAction {
    Write { offset: u64, page: u64 },
    /// Pressure dropped: duplicates are looked for from now on.
    EnableDedup,
    Read { offset: u64 },
    Discard { offset: u64 },
}

/// The byte at position `j` of page `i`.
pub open spec fn synthetic_byte(i: int, j: int) -> u8 {
    ((i * 7 + j * 13) % 256) as u8
}

/// Page `i` of the workload.
pub fn synthetic_page(i: u64) -> (r: Vec<u8>)
    requires
        i < NUM_UNIQUE,
    ensures
        r@ == Seq::new(PAGE_SIZE as nat, |j: int| synthetic_byte(i as int, j)),
{
    let mut page: Vec<u8> = Vec::new();
    let mut j: u64 = 0;
    while j < PAGE_SIZE as u64
        invariant
            i < NUM_UNIQUE,
            j <= PAGE_SIZE,
            page@ == Seq::new(j as nat, |j: int| synthetic_byte(i as int, j)),
        decreases PAGE_SIZE - j,
    {
        let ghost before = page@;
        page.push(((i * 7 + j * 13) % 256) as u8);
        j += 1;
        assert(page@ =~= Seq::new(j as nat, |j: int| synthetic_byte(i as int, j)));
    }
    page
}

/// The write with number `n`.
pub open spec fn spec_write(n: int) -> SimulationAction {
    SimulationAction::Write { offset: (n * 4096) as u64, page: ((n * 37) % 600) as u64 }
}

/// The action with number `step`.
pub open spec fn spec_action(step: int) -> Option<SimulationAction> {
    if step < 5000 {
        Some(spec_write(step))
    } else if step == 5000 {
        Some(SimulationAction::EnableDedup)
    } else if step <= 10000 {
        Some(spec_write(step - 1))
    } else if step <= 11000 {
        Some(SimulationAction::Read { offset: ((step - 10001) * 4096) as u64 })
    } else if step <= 12000 {
        Some(SimulationAction::Discard { offset: ((step - 11001 + 5000) * 4096) as u64 })
    } else {
        None
    }
}

/// Where page number `n` of the device begins.
fn page_offset(n: u64) -> (r: u64)
    requires
        n < 2 * NUM_TOTAL,
    ensures
        r == n * 4096,
{
    n * PAGE_SIZE as u64
}

fn write_action(n: u64) -> (r: SimulationAction)
    requires
        n < 2 * NUM_TOTAL,
    ensures
        r == spec_write(n as int),
{
    SimulationAction::Write { offset: page_offset(n), page: n * 37 % NUM_UNIQUE }
}

/// The action with number `step`, counted from zero; nothing once the workload
/// is over.
pub fn action(step: u64) -> (r: Option<SimulationAction>)
    ensures
        r == spec_action(step as int),
{
    let writes_end: u64 = NUM_TOTAL * 2 + 1;
    let reads_end: u64 = writes_end + NUM_READS;
    let discards_end: u64 = reads_end + NUM_DISCARDS;
    if step < NUM_TOTAL {
        Some(write_action(step))
    } else if step == NUM_TOTAL {
        Some(SimulationAction::EnableDedup)
    } else if step < writes_end {
        Some(write_action(step - 1))
    } else if step < reads_end {
        let n: u64 = step - writes_end;
        Some(SimulationAction::Read { offset: page_offset(n) })
    } else if step < discards_end {
        let n: u64 = step - reads_end + NUM_TOTAL;
        Some(SimulationAction::Discard { offset: page_offset(n) })
    } else {
        None
    }
}

/// The workload only discards and reads back pages that it wrote.
pub proof fn law_workload_touches_written_pages(step: int)
    requires
        10000 < step <= 12000,
    ensures
        exists|w: int|
            0 <= w < 10000 && (#[trigger] spec_write(w))->Write_offset == (match spec_action(step) {
                Some(SimulationAction::Read { offset }) => offset,
                Some(SimulationAction::Discard { offset }) => offset,
                _ => 0,
            }),
{
    let w = if step <= 11000 {
        step - 10001
    } else {
        step - 11001 + 5000
    };
    assert(spec_write(w) is Write);
    assert(spec_write(w)->Write_offset == (w * 4096) as u64);
}

/// The pages of the workload: byte j of page i is 7 i + 13 j, modulo 256.
pub proof fn law_pages_have_their_bytes(i: int, j: int)
    requires
        0 <= i,
        0 <= j,
    ensures
        synthetic_byte(i, j) == (7 * i + 13 * j) % 256,
        synthetic_byte(i, j + 256) == synthetic_byte(i, j),
{
}

/// The workload: five thousand writes, then deduplication is switched on, five thousand
/// more writes, a thousand reads and a thousand discards. Each write goes to the next page
/// of the device and writes one of six hundred pages; the reads go through the first
/// pages, the discards through those that were written second.
pub proof fn law_workload_has_its_order(step: int)
    requires
        0 <= step,
    ensures
        step < 5000 ==> spec_action(step) == Some(
            SimulationAction::Write { offset: (4096 * step) as u64, page: (37 * step % 600) as u64 },
        ),
        spec_action(5000) == Some(SimulationAction::EnableDedup),
        step < 5000 ==> spec_action(5001 + step) == Some(
            SimulationAction::Write {
                offset: (4096 * (5000 + step)) as u64,
                page: (37 * (5000 + step) % 600) as u64,
            },
        ),
        step < 1000 ==> spec_action(10001 + step) == Some(
            SimulationAction::Read { offset: (4096 * step) as u64 },
        ),
        step < 1000 ==> spec_action(11001 + step) == Some(
            SimulationAction::Discard { offset: (4096 * (5000 + step)) as u64 },
        ),
        step > 12000 ==> spec_action(step) is None,
{
}

} // verus!
