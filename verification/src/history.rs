//! What is read back after a sequence of operations.
//!
//! An engine and the pages of its store together hold a page for every virtual
//! offset. This module states how each operation changes these pages, and shows
//! that every sequence of operations from an empty engine reads back as it was
//! written, page by page and request by request. All of it is specification.

use vstd::prelude::*;

use crate::backend::{MappingKind, TranslationEntry};
use crate::block;
use crate::block::{BlockRequest, PageTask, RequestRun, UblkOp};
use crate::dedup::DedupEntry;
use crate::fingerprint;
use crate::fingerprint::PAGE_SIZE;
use crate::ledger::Owner;
use crate::proxy;
use crate::proxy::{PendingCheck, PendingStore, ProxyEngine, ReadStep, WriteStep};

verus! {

/// An engine with the pages of its store, by slot.
pub struct Volume {
    pub engine: ProxyEngine,
    pub disk: Map<u64, Seq<u8>>,
}

/// One operation on a page.
pub enum PageOp {
    /// A write, which worked or did not.
    Write { offset: u64, data: Seq<u8>, ok: bool },
    /// A discard.
    Discard { offset: u64 },
    /// A read, with the page that it gave, if it worked.
    Read { offset: u64, page: Option<Seq<u8>> },
    /// A switch of the passthrough mode.
    Passthrough(bool),
}

impl Volume {
    /// The page at a virtual offset.
    pub open spec fn page_at(self, u: u64) -> Seq<u8> {
        self.engine.ledger().page_at(self.disk, u)
    }

    /// The volume became `after` by the end of a write whose page had to be stored.
    /// A store that fails may leave anything in its slot.
    pub open spec fn ends_store(self, pending: PendingStore, after: Volume, ok: bool) -> bool {
        &&& after.engine.wf()
        &&& if ok {
            &&& pending.completes(&self.engine, &after.engine)
            &&& after.disk == self.disk.insert(pending.slot, pending.page@)
        } else {
            &&& after.engine.ledger() == self.engine.ledger().freeing(pending.slot)
            &&& exists|garbage: Seq<u8>| after.disk == #[trigger] self.disk.insert(
                pending.slot,
                garbage,
            )
        }
    }

    /// The volume became `after` by what followed the check of a write. The check
    /// may fail to read the page; else it reads what the slot holds.
    pub open spec fn ends_check(self, check: PendingCheck, after: Volume, ok: bool) -> bool {
        ||| !ok && after == self
        ||| exists|step: WriteStep, engine: ProxyEngine|
            {
                &&& #[trigger] step.resumes_check(
                    &self.engine,
                    &engine,
                    check,
                    self.disk[check.slot],
                )
                &&& match step {
                    WriteStep::Done(result) => {
                        &&& ok == result is Ok
                        &&& after == Volume { engine, disk: self.disk }
                    },
                    WriteStep::Fetch { .. } => false,
                    WriteStep::Store { pending, .. } => (Volume {
                        engine,
                        disk: self.disk,
                    }).ends_store(pending, after, ok),
                }
            }
    }

    /// The volume became `after` by a write, from its first step to its last.
    pub open spec fn writes(self, offset: u64, data: Seq<u8>, after: Volume, ok: bool) -> bool {
        exists|step: WriteStep, engine: ProxyEngine|
            {
                &&& #[trigger] step.starts_write(&self.engine, &engine, offset, data)
                &&& match step {
                    WriteStep::Done(result) => {
                        &&& ok == result is Ok
                        &&& after == Volume { engine, disk: self.disk }
                    },
                    WriteStep::Fetch { check, .. } => (Volume {
                        engine,
                        disk: self.disk,
                    }).ends_check(check, after, ok),
                    WriteStep::Store { pending, .. } => (Volume {
                        engine,
                        disk: self.disk,
                    }).ends_store(pending, after, ok),
                }
            }
    }

    /// The volume became `after` by a read, which gave `page` if it worked. The
    /// read of a stored page gives what its slot holds.
    pub open spec fn reads(self, offset: u64, after: Volume, page: Option<Seq<u8>>) -> bool {
        exists|step: ReadStep, engine: ProxyEngine|
            {
                &&& #[trigger] step.starts_read(&self.engine, &engine, offset)
                &&& after.disk == self.disk
                &&& after.engine.wf()
                &&& after.engine.ledger() == engine.ledger()
                &&& match step {
                    ReadStep::Done(zeroes) => page == Some(zeroes@),
                    ReadStep::Fetch { .. } => page matches Some(stored) ==> stored
                        == self.disk[self.engine.ledger().mapping[offset].backend_slot],
                }
            }
    }

    /// The volume became `after` by an operation.
    pub open spec fn does(self, op: PageOp, after: Volume) -> bool {
        match op {
            PageOp::Write { offset, data, ok } => self.writes(offset, data, after, ok),
            PageOp::Discard { offset } => {
                &&& ProxyEngine::discards(&self.engine, &after.engine, offset)
                &&& after.disk == self.disk
            },
            PageOp::Read { offset, page } => self.reads(offset, after, page),
            PageOp::Passthrough(on) => {
                &&& after.engine == ProxyEngine { passthrough: on, ..self.engine }
                &&& after.disk == self.disk
            },
        }
    }
}

impl PageOp {
    /// The page at offset `u` after the operation, given the one before it.
    pub open spec fn applied(self, before: Seq<u8>, u: u64) -> Seq<u8> {
        match self {
            PageOp::Write { offset, data, ok } => if ok && offset == u {
                fingerprint::padded(data, PAGE_SIZE as nat)
            } else {
                before
            },
            PageOp::Discard { offset } => if offset == u {
                fingerprint::zero_page()
            } else {
                before
            },
            _ => before,
        }
    }
}

/// The page at offset `u` after a sequence of operations, given the one before it:
/// what the last write or discard of that offset made of it.
pub open spec fn contents(before: Seq<u8>, ops: Seq<PageOp>, u: u64) -> Seq<u8>
    decreases ops.len(),
{
    if ops.len() == 0 {
        before
    } else {
        ops.last().applied(contents(before, ops.drop_last(), u), u)
    }
}

/// Whether the operations took the volume through these states.
pub open spec fn is_history(states: Seq<Volume>, ops: Seq<PageOp>) -> bool {
    &&& states.len() == ops.len() + 1
    &&& forall|i: int|
        0 <= i < ops.len() ==> (#[trigger] states[i]).does(ops[i], states[i + 1])
}

proof fn lemma_ended_store(
    before: Volume,
    waiting: Volume,
    offset: u64,
    pending: PendingStore,
    v: u64,
    page: Seq<u8>,
    key: Option<u128>,
    after: Volume,
    ok: bool,
    u: u64,
)
    requires
        before.engine.wf(),
        waiting.disk == before.disk,
        (WriteStep::Store { offset, pending }).stores(
            &before.engine,
            &waiting.engine,
            v,
            page,
            key,
        ),
        waiting.ends_store(pending, after, ok),
    ensures
        after.engine.wf(),
        after.page_at(u) == (if ok && u == v {
            page
        } else {
            before.page_at(u)
        }),
{
    if ok {
        proxy::law_stored_page_is_read_back(
            &before.engine,
            &waiting.engine,
            &after.engine,
            offset,
            pending,
            v,
            page,
            key,
            before.disk,
            u,
        );
    } else {
        let garbage = choose|garbage: Seq<u8>| after.disk == #[trigger] waiting.disk.insert(
            pending.slot,
            garbage,
        );
        proxy::law_failed_store_changes_nothing(
            &before.engine,
            &waiting.engine,
            offset,
            pending,
            v,
            page,
            key,
            before.disk,
            garbage,
            u,
        );
    }
}

proof fn lemma_ended_check(before: Volume, check: PendingCheck, after: Volume, ok: bool, u: u64)
    requires
        before.engine.wf(),
        check.fits(&before.engine),
        before.ends_check(check, after, ok),
    ensures
        after.engine.wf(),
        after.page_at(u) == (if ok && u == check.virtual_offset {
            check.page@
        } else {
            before.page_at(u)
        }),
{
    if !(!ok && after == before) {
        let bytes = before.disk[check.slot];
        let k = fingerprint::key_of(check.fingerprint);
        let (step, engine) = choose|step: WriteStep, engine: ProxyEngine|
            {
                &&& #[trigger] step.resumes_check(&before.engine, &engine, check, bytes)
                &&& match step {
                    WriteStep::Done(result) => {
                        &&& ok == result is Ok
                        &&& after == Volume { engine, disk: before.disk }
                    },
                    WriteStep::Fetch { .. } => false,
                    WriteStep::Store { pending, .. } => (Volume {
                        engine,
                        disk: before.disk,
                    }).ends_store(pending, after, ok),
                }
            };
        if bytes == check.page@ && before.engine.ledger().table[k].ref_count < u64::MAX {
            proxy::law_shared_page_is_read_back(&before.engine, &engine, check, before.disk, u);
        } else {
            match step {
                WriteStep::Store { offset, pending } => {
                    let waiting = Volume { engine, disk: before.disk };
                    lemma_ended_store(
                        before,
                        waiting,
                        offset,
                        pending,
                        check.virtual_offset,
                        check.page@,
                        Some(k),
                        after,
                        ok,
                        u,
                    );
                },
                _ => {},
            }
        }
    }
}

/// A write that worked makes its offset read as the page that was written, cut or
/// padded to its size, whether the page was stored or shared. Every other offset
/// reads as before, and after a write that failed all of them do.
pub proof fn law_write_is_read_back(
    before: Volume,
    offset: u64,
    data: Seq<u8>,
    after: Volume,
    ok: bool,
    u: u64,
)
    requires
        before.engine.wf(),
        before.writes(offset, data, after, ok),
    ensures
        after.engine.wf(),
        after.page_at(u) == (if ok && u == offset {
            fingerprint::padded(data, PAGE_SIZE as nat)
        } else {
            before.page_at(u)
        }),
{
    let page = fingerprint::padded(data, PAGE_SIZE as nat);
    let (step, engine) = choose|step: WriteStep, engine: ProxyEngine|
        {
            &&& #[trigger] step.starts_write(&before.engine, &engine, offset, data)
            &&& match step {
                WriteStep::Done(result) => {
                    &&& ok == result is Ok
                    &&& after == Volume { engine, disk: before.disk }
                },
                WriteStep::Fetch { check, .. } => (Volume {
                    engine,
                    disk: before.disk,
                }).ends_check(check, after, ok),
                WriteStep::Store { pending, .. } => (Volume {
                    engine,
                    disk: before.disk,
                }).ends_store(pending, after, ok),
            }
        };
    let started = Volume { engine, disk: before.disk };
    let key = if before.engine.passthrough {
        None
    } else {
        Some(proxy::page_key(page))
    };
    match step {
        WriteStep::Done(_) => {},
        WriteStep::Fetch { check, .. } => {
            lemma_ended_check(started, check, after, ok, u);
        },
        WriteStep::Store { offset: at, pending } => {
            lemma_ended_store(before, started, at, pending, offset, page, key, after, ok, u);
        },
    }
}

/// A read that works gives the page at its offset, and no read changes a page.
pub proof fn law_read_gives_the_page(
    before: Volume,
    offset: u64,
    after: Volume,
    page: Option<Seq<u8>>,
    u: u64,
)
    requires
        before.engine.wf(),
        before.reads(offset, after, page),
    ensures
        after.engine.wf(),
        after.page_at(u) == before.page_at(u),
        page matches Some(bytes) ==> bytes == before.page_at(offset),
{
}

/// Every operation changes the pages as its kind says, and keeps the engine in
/// order.
pub proof fn law_operation_applies(before: Volume, op: PageOp, after: Volume, u: u64)
    requires
        before.engine.wf(),
        before.does(op, after),
    ensures
        after.engine.wf(),
        after.page_at(u) == op.applied(before.page_at(u), u),
{
    match op {
        PageOp::Write { offset, data, ok } => {
            law_write_is_read_back(before, offset, data, after, ok, u);
        },
        PageOp::Discard { offset } => {
            proxy::law_discarded_page_reads_as_zeroes(&before.engine, offset, before.disk, u);
        },
        PageOp::Read { offset, page } => {
            law_read_gives_the_page(before, offset, after, page, u);
        },
        PageOp::Passthrough(_) => {
            assert(after.engine.ledger() == before.engine.ledger());
        },
    }
}

/// After every sequence of operations each offset reads as the last write or
/// discard of it says.
pub proof fn law_history_is_read_back(states: Seq<Volume>, ops: Seq<PageOp>, u: u64)
    requires
        is_history(states, ops),
        states[0].engine.wf(),
    ensures
        states.last().engine.wf(),
        states.last().page_at(u) == contents(states[0].page_at(u), ops, u),
    decreases ops.len(),
{
    if ops.len() > 0 {
        let n = ops.len() - 1;
        let before = states.drop_last();
        assert forall|i: int| 0 <= i < ops.drop_last().len() implies (#[trigger] before[i]).does(
            ops.drop_last()[i],
            before[i + 1],
        ) by {
            assert(states[i].does(ops[i], states[i + 1]));
        }
        law_history_is_read_back(before, ops.drop_last(), u);
        assert(before.last() == states[n]);
        assert(states[n].does(ops[n], states[n + 1]));
        law_operation_applies(states[n], ops[n], states[n + 1], u);
    }
}

/// Every sequence of operations from an empty engine: a read that works gives the
/// page of the last write of its offset that worked, and zeroes where there was
/// none, or a discard came after it.
pub proof fn law_every_read_gives_what_was_written(
    states: Seq<Volume>,
    ops: Seq<PageOp>,
    i: int,
    offset: u64,
    page: Seq<u8>,
)
    requires
        is_history(states, ops),
        states[0].engine.wf(),
        states[0].engine.ledger().mapping.dom() == Set::<u64>::empty(),
        0 <= i < ops.len(),
        ops[i] == (PageOp::Read { offset, page: Some(page) }),
    ensures
        page == contents(fingerprint::zero_page(), ops.take(i), offset),
{
    let before = states.take(i + 1);
    assert forall|k: int| 0 <= k < ops.take(i).len() implies (#[trigger] before[k]).does(
        ops.take(i)[k],
        before[k + 1],
    ) by {
        assert(states[k].does(ops[k], states[k + 1]));
    }
    law_history_is_read_back(before, ops.take(i), offset);
    assert(states[i].does(ops[i], states[i + 1]));
    law_read_gives_the_page(states[i], offset, states[i + 1], Some(page), offset);
    assert(before.last() == states[i]);
    assert(!states[0].engine.ledger().mapping.dom().contains(offset));
}

// ---------------------------------------------------------------------------
// Requests
// ---------------------------------------------------------------------------

/// The operation of a page task that works, with the buffer of its request. A read
/// puts the given page into the buffer.
pub open spec fn op_of(task: PageTask, buffer: Seq<u8>, page: Seq<u8>) -> PageOp {
    match task {
        PageTask::Read { offset, .. } => PageOp::Read { offset, page: Some(page) },
        PageTask::Write { offset, at } => PageOp::Write {
            offset,
            data: buffer.subrange(at as int, at + PAGE_SIZE),
            ok: true,
        },
        PageTask::Discard { offset } => PageOp::Discard { offset },
        PageTask::WriteZeroes { offset } => PageOp::Write {
            offset,
            data: fingerprint::zero_page(),
            ok: true,
        },
    }
}

/// The operations of a request whose pages all work; `pages` are those that a read
/// request gets.
pub open spec fn request_ops(request: BlockRequest, buffer: Seq<u8>, pages: Seq<Seq<u8>>) -> Seq<
    PageOp,
> {
    Seq::new(
        (request.bytes / 4096) as nat,
        |i: int| op_of(RequestRun::task_of(request, i as nat), buffer, pages[i]),
    )
}

/// The buffer after the first pages of a read request were put into it.
pub open spec fn filled(buffer: Seq<u8>, pages: Seq<Seq<u8>>) -> Seq<u8>
    decreases pages.len(),
{
    if pages.len() == 0 {
        buffer
    } else {
        block::with_page(
            filled(buffer, pages.drop_last()),
            (pages.len() - 1) * 4096,
            pages.last(),
        )
    }
}

/// The bytes that a request leaves in its range of the device.
pub open spec fn bytes_of(request: BlockRequest, buffer: Seq<u8>) -> Seq<u8> {
    if request.op is Write {
        buffer.take(request.bytes as int)
    } else {
        Seq::new(request.bytes as nat, |i: int| 0u8)
    }
}

proof fn lemma_request_contents(
    request: BlockRequest,
    buffer: Seq<u8>,
    pages: Seq<Seq<u8>>,
    before: Seq<u8>,
    n: int,
    i: int,
)
    requires
        request.is_page_aligned(),
        request.fits(),
        request.op is Write || request.op is WriteZeroes || request.op is Discard,
        request.op is Write ==> buffer.len() >= request.bytes,
        0 <= i < n <= request.bytes / 4096,
    ensures
        contents(
            before,
            request_ops(request, buffer, pages).take(n),
            (request.offset + i * 4096) as u64,
        ) == bytes_of(request, buffer).subrange(i * 4096, i * 4096 + 4096),
    decreases n,
{
    let ops = request_ops(request, buffer, pages);
    let u = (request.offset + i * 4096) as u64;
    assert(ops.take(n).drop_last() =~= ops.take(n - 1));
    assert(ops.take(n).last() == ops[n - 1]);
    assert(u == request.offset + i * 4096);
    let at = (request.offset + (n - 1) * 4096) as u64;
    assert(at == request.offset + (n - 1) * 4096);
    if i == n - 1 {
        let bytes = bytes_of(request, buffer).subrange(i * 4096, i * 4096 + 4096);
        assert(i * 4096 + 4096 <= request.bytes);
        if request.op is Write {
            assert(fingerprint::padded(bytes, PAGE_SIZE as nat) =~= bytes);
            assert(buffer.subrange(i * 4096, i * 4096 + 4096) =~= bytes);
        } else {
            assert(fingerprint::padded(fingerprint::zero_page(), PAGE_SIZE as nat)
                =~= fingerprint::zero_page());
            assert(fingerprint::zero_page() =~= bytes);
        }
    } else {
        lemma_request_contents(request, buffer, pages, before, n - 1, i);
        assert(at != u);
    }
}

proof fn lemma_filled(buffer: Seq<u8>, pages: Seq<Seq<u8>>)
    requires
        pages.len() * 4096 <= buffer.len(),
        forall|i: int| 0 <= i < pages.len() ==> (#[trigger] pages[i]).len() == 4096,
    ensures
        filled(buffer, pages).len() == buffer.len(),
        forall|i: int, j: int|
            0 <= i < pages.len() && 0 <= j < 4096 ==> filled(buffer, pages)[i * 4096 + j]
                == #[trigger] pages[i][j],
        forall|x: int|
            pages.len() * 4096 <= x < buffer.len() ==> #[trigger] filled(buffer, pages)[x]
                == buffer[x],
    decreases pages.len(),
{
    if pages.len() > 0 {
        let front = pages.drop_last();
        let n = pages.len() - 1;
        lemma_filled(buffer, front);
        let before = filled(buffer, front);
        let all = filled(buffer, pages);
        assert(all == block::with_page(before, n * 4096, pages[n]));
        assert forall|i: int, j: int| 0 <= i < pages.len() && 0 <= j < 4096 implies all[i * 4096
            + j] == #[trigger] pages[i][j] by {
            if i < n {
                assert(i * 4096 + 4096 <= n * 4096);
                assert(front[i][j] == pages[i][j]);
                assert(all[i * 4096 + j] == before[i * 4096 + j]);
            }
        }
    }
}

impl PageOp {
    /// Whether the operation changes the page at offset `u`.
    pub open spec fn changes(self, u: u64) -> bool {
        match self {
            PageOp::Write { offset, ok, .. } => ok && offset == u,
            PageOp::Discard { offset } => offset == u,
            _ => false,
        }
    }
}

/// Whether the operations leave every page of the request alone.
pub open spec fn leave_alone(ops: Seq<PageOp>, request: BlockRequest) -> bool {
    forall|k: int, i: int|
        0 <= k < ops.len() && 0 <= i < request.bytes / 4096 ==> !(#[trigger] ops[k]).changes(
            #[trigger] page_offset(request, i),
        )
}

/// Where page `i` of a request lies on the device.
pub open spec fn page_offset(request: BlockRequest, i: int) -> u64 {
    (request.offset + i * 4096) as u64
}

proof fn lemma_left_alone(before: Seq<u8>, ops: Seq<PageOp>, u: u64)
    requires
        forall|k: int| 0 <= k < ops.len() ==> !(#[trigger] ops[k]).changes(u),
    ensures
        contents(before, ops, u) == before,
    decreases ops.len(),
{
    if ops.len() > 0 {
        let front = ops.drop_last();
        assert forall|k: int| 0 <= k < front.len() implies !(#[trigger] front[k]).changes(u) by {
            assert(front[k] == ops[k]);
        }
        lemma_left_alone(before, front, u);
        assert(!ops[ops.len() - 1].changes(u));
    }
}

proof fn lemma_written_page(
    states: Seq<Volume>,
    request: BlockRequest,
    data: Seq<u8>,
    pages: Seq<Seq<u8>>,
    i: int,
)
    requires
        request.is_page_aligned(),
        request.fits(),
        request.op is Write || request.op is WriteZeroes || request.op is Discard,
        request.op is Write ==> data.len() >= request.bytes,
        states[0].engine.wf(),
        is_history(states, request_ops(request, data, pages)),
        0 <= i < request.bytes / 4096,
    ensures
        states.last().engine.wf(),
        states.last().page_at(page_offset(request, i)) == bytes_of(request, data).subrange(
            i * 4096,
            i * 4096 + 4096,
        ),
{
    let writes = request_ops(request, data, pages);
    let n = (request.bytes / 4096) as int;
    let u = page_offset(request, i);
    assert(writes.take(n) =~= writes);
    law_history_is_read_back(states, writes, u);
    lemma_request_contents(request, data, pages, states[0].page_at(u), n, i);
}

proof fn lemma_read_page(
    states: Seq<Volume>,
    request: BlockRequest,
    buffer: Seq<u8>,
    pages: Seq<Seq<u8>>,
    i: int,
)
    requires
        request.op is Read,
        states[0].engine.wf(),
        is_history(states, request_ops(request, buffer, pages)),
        0 <= i < request.bytes / 4096,
    ensures
        pages[i] == states[0].page_at(page_offset(request, i)),
{
    let reads = request_ops(request, buffer, pages);
    let u = page_offset(request, i);
    let before = states.take(i + 1);
    assert forall|k: int| 0 <= k < reads.take(i).len() implies (#[trigger] before[k]).does(
        reads.take(i)[k],
        before[k + 1],
    ) by {
        assert(states[k].does(reads[k], states[k + 1]));
    }
    law_history_is_read_back(before, reads.take(i), u);
    lemma_reads_change_nothing(request, buffer, pages, states[0].page_at(u), i, u);
    assert(states[i].does(reads[i], states[i + 1]));
    assert(before.last() == states[i]);
    law_read_gives_the_page(states[i], u, states[i + 1], Some(pages[i]), u);
}

/// What a request leaves is read back by a later request for the same range, as long
/// as nothing in between changes a page of that range: a read after a write gives the
/// bytes of the write, and one after a discard or a write of zeroes gives zeroes. The
/// rest of the buffer of the read stays as it was. Here every page of both requests
/// works.
pub proof fn law_request_is_read_back(
    states: Seq<Volume>,
    request: BlockRequest,
    data: Seq<u8>,
    meanwhile: Seq<Volume>,
    between: Seq<PageOp>,
    later: Seq<Volume>,
    pages: Seq<Seq<u8>>,
    buffer: Seq<u8>,
)
    requires
        request.is_page_aligned(),
        request.fits(),
        request.op is Write || request.op is WriteZeroes || request.op is Discard,
        request.op is Write ==> data.len() >= request.bytes,
        buffer.len() >= request.bytes,
        pages.len() == request.bytes / 4096,
        states[0].engine.wf(),
        is_history(states, request_ops(request, data, pages)),
        meanwhile[0] == states.last(),
        is_history(meanwhile, between),
        leave_alone(between, request),
        later[0] == meanwhile.last(),
        is_history(
            later,
            request_ops(BlockRequest { op: UblkOp::Read, ..request }, buffer, pages),
        ),
    ensures
        filled(buffer, pages) == bytes_of(request, data) + buffer.skip(request.bytes as int),
{
    let reading = BlockRequest { op: UblkOp::Read, ..request };
    let expected = bytes_of(request, data);
    assert forall|i: int| 0 <= i < pages.len() implies #[trigger] pages[i] == expected.subrange(
        i * 4096,
        i * 4096 + 4096,
    ) by {
        lemma_written_page(states, request, data, pages, i);
        lemma_page_stays(meanwhile, between, request, i);
        lemma_read_page(later, reading, buffer, pages, i);
    }
    lemma_filled_with(buffer, pages, expected);
}

proof fn lemma_page_stays(
    states: Seq<Volume>,
    ops: Seq<PageOp>,
    request: BlockRequest,
    i: int,
)
    requires
        states[0].engine.wf(),
        is_history(states, ops),
        leave_alone(ops, request),
        0 <= i < request.bytes / 4096,
    ensures
        states.last().engine.wf(),
        states.last().page_at(page_offset(request, i)) == states[0].page_at(
            page_offset(request, i),
        ),
{
    let u = page_offset(request, i);
    law_history_is_read_back(states, ops, u);
    assert forall|k: int| 0 <= k < ops.len() implies !(#[trigger] ops[k]).changes(u) by {
        assert(!ops[k].changes(page_offset(request, i)));
    }
    lemma_left_alone(states[0].page_at(u), ops, u);
}

proof fn lemma_filled_with(buffer: Seq<u8>, pages: Seq<Seq<u8>>, bytes: Seq<u8>)
    requires
        bytes.len() == pages.len() * 4096,
        bytes.len() <= buffer.len(),
        forall|i: int|
            0 <= i < pages.len() ==> #[trigger] pages[i] == bytes.subrange(
                i * 4096,
                i * 4096 + 4096,
            ),
    ensures
        filled(buffer, pages) == bytes + buffer.skip(bytes.len() as int),
{
    assert forall|i: int| 0 <= i < pages.len() implies (#[trigger] pages[i]).len() == 4096 by {
        assert(i * 4096 + 4096 <= bytes.len());
    }
    lemma_filled(buffer, pages);
    let read = filled(buffer, pages);
    let whole = bytes + buffer.skip(bytes.len() as int);
    assert forall|x: int| 0 <= x < buffer.len() implies read[x] == whole[x] by {
        if x < bytes.len() {
            let i = x / 4096;
            let j = x % 4096;
            assert(x == i * 4096 + j);
            assert(pages[i][j] == bytes.subrange(i * 4096, i * 4096 + 4096)[j]);
        }
    }
    assert(read =~= whole);
}

proof fn lemma_reads_change_nothing(
    request: BlockRequest,
    buffer: Seq<u8>,
    pages: Seq<Seq<u8>>,
    before: Seq<u8>,
    n: int,
    u: u64,
)
    requires
        request.op is Read,
        0 <= n <= request.bytes / 4096,
    ensures
        contents(before, request_ops(request, buffer, pages).take(n), u) == before,
    decreases n,
{
    if n > 0 {
        let ops = request_ops(request, buffer, pages);
        assert(ops.take(n).drop_last() =~= ops.take(n - 1));
        lemma_reads_change_nothing(request, buffer, pages, before, n - 1, u);
    }
}

// ---------------------------------------------------------------------------
// Counters and sharing
// ---------------------------------------------------------------------------

/// What a page reads as after a write, a discard, and anything else: the bytes that were
/// written, zeroes, and what it was before.
pub proof fn law_operations_leave_their_bytes(
    before: Seq<u8>,
    ops: Seq<PageOp>,
    u: u64,
    other: u64,
    data: Seq<u8>,
    i: int,
)
    requires
        data.len() == 4096,
        other != u,
        0 <= i < 4096,
    ensures
        contents(before, ops.push(PageOp::Write { offset: u, data, ok: true }), u) == data,
        contents(before, ops.push(PageOp::Write { offset: u, data, ok: false }), u) == contents(
            before,
            ops,
            u,
        ),
        contents(before, ops.push(PageOp::Write { offset: other, data, ok: true }), u) == contents(
            before,
            ops,
            u,
        ),
        contents(before, ops.push(PageOp::Discard { offset: u }), u).len() == 4096,
        contents(before, ops.push(PageOp::Discard { offset: u }), u)[i] == 0,
        contents(before, ops.push(PageOp::Discard { offset: other }), u) == contents(
            before,
            ops,
            u,
        ),
        contents(before, Seq::empty(), u) == before,
{
    fingerprint::law_pages_are_padded(data, 0);
    let w = PageOp::Write { offset: u, data, ok: true };
    let f = PageOp::Write { offset: u, data, ok: false };
    let o = PageOp::Write { offset: other, data, ok: true };
    let d = PageOp::Discard { offset: u };
    let e = PageOp::Discard { offset: other };
    assert(ops.push(w).drop_last() =~= ops);
    assert(ops.push(f).drop_last() =~= ops);
    assert(ops.push(o).drop_last() =~= ops);
    assert(ops.push(d).drop_last() =~= ops);
    assert(ops.push(e).drop_last() =~= ops);
}

/// A write of a whole page that worked is what the next read of its offset gives.
pub proof fn law_whole_page_is_read_back(
    before: Volume,
    offset: u64,
    data: Seq<u8>,
    written: Volume,
    after: Volume,
    page: Seq<u8>,
)
    requires
        before.engine.wf(),
        data.len() == 4096,
        before.does(PageOp::Write { offset, data, ok: true }, written),
        written.does(PageOp::Read { offset, page: Some(page) }, after),
    ensures
        page == data,
{
    law_write_is_read_back(before, offset, data, written, true, offset);
    law_read_gives_the_page(written, offset, after, Some(page), offset);
    fingerprint::law_pages_are_padded(data, 0);
}

/// An offset that was discarded reads as 4096 zeroes.
pub proof fn law_discarded_offset_reads_as_zeroes(
    before: Volume,
    offset: u64,
    discarded: Volume,
    after: Volume,
    page: Seq<u8>,
    i: int,
)
    requires
        before.engine.wf(),
        before.does(PageOp::Discard { offset }, discarded),
        discarded.does(PageOp::Read { offset, page: Some(page) }, after),
        0 <= i < 4096,
    ensures
        page.len() == 4096,
        page[i] == 0,
{
    law_operation_applies(before, PageOp::Discard { offset }, discarded, offset);
    law_read_gives_the_page(discarded, offset, after, Some(page), offset);
}

/// The counters of the engine: a write that worked counts as a write, and as either a
/// unique or a duplicate one; a discard counts as a discard.
pub proof fn law_writes_are_counted(
    before: Volume,
    offset: u64,
    data: Seq<u8>,
    after: Volume,
)
    requires
        before.writes(offset, data, after, true),
        before.engine.stats.total_writes < u64::MAX,
        before.engine.stats.unique_writes < u64::MAX,
        before.engine.stats.duplicate_writes < u64::MAX,
    ensures
        ({
            let old_stats = before.engine.stats;
            let new_stats = after.engine.stats;
            &&& new_stats.total_writes == old_stats.total_writes + 1
            &&& new_stats.unique_writes + new_stats.duplicate_writes == old_stats.unique_writes
                + old_stats.duplicate_writes + 1
            &&& old_stats.unique_writes <= new_stats.unique_writes
            &&& old_stats.duplicate_writes <= new_stats.duplicate_writes
            &&& new_stats.total_reads == old_stats.total_reads
            &&& new_stats.discards == old_stats.discards
            &&& before.engine.passthrough ==> new_stats.unique_writes == old_stats.unique_writes
                + 1
        }),
{
    let (step, engine) = choose|step: WriteStep, engine: ProxyEngine|
        {
            &&& #[trigger] step.starts_write(&before.engine, &engine, offset, data)
            &&& match step {
                WriteStep::Done(result) => {
                    &&& true == result is Ok
                    &&& after == Volume { engine, disk: before.disk }
                },
                WriteStep::Fetch { check, .. } => (Volume {
                    engine,
                    disk: before.disk,
                }).ends_check(check, after, true),
                WriteStep::Store { pending, .. } => (Volume {
                    engine,
                    disk: before.disk,
                }).ends_store(pending, after, true),
            }
        };
    let started = Volume { engine, disk: before.disk };
    if let WriteStep::Fetch { check, .. } = step {
        let (next, checked) = choose|next: WriteStep, checked: ProxyEngine|
            {
                &&& #[trigger] next.resumes_check(
                    &engine,
                    &checked,
                    check,
                    started.disk[check.slot],
                )
                &&& match next {
                    WriteStep::Done(result) => {
                        &&& true == result is Ok
                        &&& after == Volume { engine: checked, disk: started.disk }
                    },
                    WriteStep::Fetch { .. } => false,
                    WriteStep::Store { pending, .. } => (Volume {
                        engine: checked,
                        disk: started.disk,
                    }).ends_store(pending, after, true),
                }
            };
        assert(next.resumes_check(&engine, &checked, check, started.disk[check.slot]));
    }
}

/// A discard counts as a discard, and as nothing else.
pub proof fn law_discards_are_counted(before: Volume, offset: u64, after: Volume)
    requires
        before.does(PageOp::Discard { offset }, after),
        before.engine.stats.discards < u64::MAX,
    ensures
        after.engine.stats.discards == before.engine.stats.discards + 1,
        after.engine.stats.total_writes == before.engine.stats.total_writes,
        after.engine.stats.unique_writes == before.engine.stats.unique_writes,
        after.engine.stats.duplicate_writes == before.engine.stats.duplicate_writes,
        after.engine.stats.total_reads == before.engine.stats.total_reads,
{
}

/// Equal pages are stored once: a page that is written to two offsets, one after the
/// other, is stored with the first write, if its key is new and the table has room, and
/// the second write shares its slot and leaves the disk alone.
pub proof fn law_equal_pages_are_stored_once(
    before: Volume,
    first: u64,
    data: Seq<u8>,
    middle: Volume,
    second: u64,
    after: Volume,
)
    requires
        before.engine.wf(),
        !before.engine.passthrough,
        !middle.engine.passthrough,
        first != second,
        before.engine.dedup_table@.entries.len() < before.engine.dedup_table@.max_entries,
        !before.engine.dedup_table@.entries.contains_key(
            proxy::page_key(fingerprint::padded(data, PAGE_SIZE as nat)),
        ),
        before.writes(first, data, middle, true),
        middle.writes(second, data, after, true),
    ensures
        after.disk == middle.disk,
        after.engine.ledger().mapping[first].backend_slot
            == after.engine.ledger().mapping[second].backend_slot,
{
    let page = fingerprint::padded(data, PAGE_SIZE as nat);
    let k = proxy::page_key(page);
    let slot = lemma_new_page_is_tracked(before, first, data, middle);
    let (step, engine) = choose|step: WriteStep, engine: ProxyEngine|
        {
            &&& #[trigger] step.starts_write(&middle.engine, &engine, second, data)
            &&& match step {
                WriteStep::Done(result) => {
                    &&& true == result is Ok
                    &&& after == Volume { engine, disk: middle.disk }
                },
                WriteStep::Fetch { check, .. } => (Volume {
                    engine,
                    disk: middle.disk,
                }).ends_check(check, after, true),
                WriteStep::Store { pending, .. } => (Volume {
                    engine,
                    disk: middle.disk,
                }).ends_store(pending, after, true),
            }
        };
    assert(middle.engine.dedup_table@.finds(k, page));
    let started = Volume { engine, disk: middle.disk };
    if let WriteStep::Fetch { check, .. } = step {
        assert(check.slot == slot);
        let (next, checked) = choose|next: WriteStep, checked: ProxyEngine|
            {
                &&& #[trigger] next.resumes_check(
                    &engine,
                    &checked,
                    check,
                    started.disk[check.slot],
                )
                &&& match next {
                    WriteStep::Done(result) => {
                        &&& true == result is Ok
                        &&& after == Volume { engine: checked, disk: started.disk }
                    },
                    WriteStep::Fetch { .. } => false,
                    WriteStep::Store { pending, .. } => (Volume {
                        engine: checked,
                        disk: started.disk,
                    }).ends_store(pending, after, true),
                }
            };
        assert(started.disk[check.slot] == check.page@);
        assert(engine.ledger().table[k].ref_count < u64::MAX);
        assert(check.shares(&engine, &checked));
    }
}

proof fn lemma_new_page_is_tracked(
    before: Volume,
    offset: u64,
    data: Seq<u8>,
    after: Volume,
) -> (slot: u64)
    requires
        before.engine.wf(),
        !before.engine.passthrough,
        before.engine.dedup_table@.entries.len() < before.engine.dedup_table@.max_entries,
        !before.engine.dedup_table@.entries.contains_key(
            proxy::page_key(fingerprint::padded(data, PAGE_SIZE as nat)),
        ),
        before.writes(offset, data, after, true),
    ensures
        ({
            let page = fingerprint::padded(data, PAGE_SIZE as nat);
            let k = proxy::page_key(page);
            &&& after.engine.dedup_table@.finds(k, page)
            &&& after.engine.ledger().table[k].backend_offset == slot
            &&& after.engine.ledger().table[k].ref_count == 1
            &&& after.disk[slot] == page
            &&& after.engine.ledger().mapping.contains_key(offset)
            &&& after.engine.ledger().mapping[offset].backend_slot == slot
        }),
{
    let page = fingerprint::padded(data, PAGE_SIZE as nat);
    let k = proxy::page_key(page);
    let (step, engine) = choose|step: WriteStep, engine: ProxyEngine|
        {
            &&& #[trigger] step.starts_write(&before.engine, &engine, offset, data)
            &&& match step {
                WriteStep::Done(result) => {
                    &&& true == result is Ok
                    &&& after == Volume { engine, disk: before.disk }
                },
                WriteStep::Fetch { check, .. } => (Volume {
                    engine,
                    disk: before.disk,
                }).ends_check(check, after, true),
                WriteStep::Store { pending, .. } => (Volume {
                    engine,
                    disk: before.disk,
                }).ends_store(pending, after, true),
            }
        };
    if let WriteStep::Store { pending, .. } = step {
        assert(pending.is_shared(&engine));
        let entry = choose|entry: DedupEntry|
            {
                &&& entry.backend_offset == pending.slot
                &&& entry.ref_count == 1
                &&& entry.prefix@ == fingerprint::padded(pending.page@, 64)
                &&& after.engine.ledger() == #[trigger] engine.ledger().tracking(
                    fingerprint::key_of(pending.fingerprint->0),
                    entry,
                ).remapped(
                    pending.virtual_offset,
                    TranslationEntry {
                        kind: MappingKind::Deduplicated { fingerprint: pending.fingerprint->0 },
                        backend_slot: pending.slot,
                    },
                )
            };
        fingerprint::law_prefixes_agree_byte_by_byte(entry.prefix@, page);
        let ledger = engine.ledger();
        if ledger.mapping.contains_key(offset) {
            match ledger.mapping[offset].shared_key() {
                Some(other) => {
                    assert(before.engine.ledger().mapping.contains_key(offset));
                    assert(before.engine.ledger().owns(
                        Owner::Table(other),
                        ledger.mapping[offset].backend_slot,
                    ));
                    assert(other != k);
                },
                None => {},
            }
        }
        assert(after.engine.ledger().table.contains_key(k));
        assert(after.engine.ledger().table[k] == entry);
        pending.slot
    } else {
        0
    }
}

} // verus!
