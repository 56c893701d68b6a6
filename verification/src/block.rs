//! Block requests of the ublk frontend.
//!
//! A request covers a range of pages. It is carried out page by page: the run
//! says which page comes next, the caller does it, and reports whether that
//! worked.

use vstd::prelude::*;
use vstd::string::StringExecFns;

use crate::backend::PageStoreView;
use crate::fingerprint;
use crate::fingerprint::PAGE_SIZE;
use crate::proxy::{PendingCheck, PendingStore, ProxyEngine, ReadStep, WriteStep};

verus! {

pub const DEFAULT_QUEUE_DEPTH: u16 = 64;

pub const DEFAULT_IO_BUF_BYTES: u32 = 131072;

/// Most queues that a device is given.
pub const MAX_QUEUES: u16 = 4;

/// Maximum consecutive I/O completion failures before a queue is reported.
pub const MAX_COMPLETION_FAILURES: u32 = 10;

/// Error numbers, as the kernel counts them.
pub const EIO: i32 = 5;

pub const EINVAL: i32 = 22;

pub const EOPNOTSUPP: i32 = 95;

/// Operation codes, as the ublk driver numbers them.
pub const UBLK_IO_OP_READ: u32 = 0;

pub const UBLK_IO_OP_WRITE: u32 = 1;

pub const UBLK_IO_OP_FLUSH: u32 = 2;

pub const UBLK_IO_OP_DISCARD: u32 = 3;

pub const UBLK_IO_OP_WRITE_ZEROES: u32 = 5;

#[derive(Debug, Clone, Copy, PartialEq, Eq, Structural)]
pub enum UblkOp {
    Read,
    Write,
    Flush,
    Discard,
    WriteZeroes,
    Unsupported(u32),
}

impl UblkOp {
    pub open spec fn spec_from_raw(raw: u32) -> UblkOp {
        if raw == 0 {
            UblkOp::Read
        } else if raw == 1 {
            UblkOp::Write
        } else if raw == 2 {
            UblkOp::Flush
        } else if raw == 3 {
            UblkOp::Discard
        } else if raw == 5 {
            UblkOp::WriteZeroes
        } else {
            UblkOp::Unsupported(raw)
        }
    }

    pub fn from_raw(raw: u32) -> (r: Self)
        ensures
            r == Self::spec_from_raw(raw),
    {
        match raw {
            UBLK_IO_OP_READ => UblkOp::Read,
            UBLK_IO_OP_WRITE => UblkOp::Write,
            UBLK_IO_OP_FLUSH => UblkOp::Flush,
            UBLK_IO_OP_DISCARD => UblkOp::Discard,
            UBLK_IO_OP_WRITE_ZEROES => UblkOp::WriteZeroes,
            other => UblkOp::Unsupported(other),
        }
    }
}

/// A request for a range of bytes of the device.
#[derive(Debug, Clone, Copy, PartialEq, Eq, Structural)]
pub struct BlockRequest {
    pub op: UblkOp,
    pub offset: u64,
    pub bytes: usize,
}

impl BlockRequest {
    /// Whether the request covers whole pages.
    pub open spec fn is_page_aligned(self) -> bool {
        self.offset % 4096 == 0 && self.bytes % 4096 == 0
    }

    /// Whether every byte of the request has an offset.
    pub open spec fn fits(self) -> bool {
        self.offset + self.bytes <= u64::MAX + 1
    }

    /// Whether the request can be started with a buffer of the given length: it is
    /// answered at once, or every byte of it has an offset.
    pub fn can_start(self, buffer_len: usize) -> (r: bool)
        ensures
            r == (self.early_answer(buffer_len as nat) is None ==> self.fits()),
    {
        let touches_pages: bool = match self.op {
            UblkOp::Unsupported(_) | UblkOp::Flush => false,
            UblkOp::Read | UblkOp::Write => {
                self.validate_page_aligned().is_ok() && buffer_len >= self.bytes
            },
            UblkOp::Discard | UblkOp::WriteZeroes => self.validate_page_aligned().is_ok(),
        };
        !touches_pages || self.bytes == 0 || self.bytes as u64 - 1 <= u64::MAX - self.offset
    }

    /// A request in units of 512-byte sectors.
    pub fn new(op: UblkOp, start_sector: u64, nr_sectors: u32) -> (r: Self)
        ensures
            r.op == op,
            r.offset == start_sector << 9,
            r.bytes == nr_sectors << 9,
            start_sector < 0x80_0000_0000_0000 ==> r.offset == start_sector * 512,
            nr_sectors < 0x80_0000 ==> r.bytes == nr_sectors * 512,
    {
        assert(start_sector < 0x80_0000_0000_0000 ==> start_sector << 9 == start_sector * 512)
            by (bit_vector);
        assert(nr_sectors < 0x80_0000 ==> nr_sectors << 9 == nr_sectors * 512) by (bit_vector);
        BlockRequest { op, offset: start_sector << 9, bytes: (nr_sectors << 9) as usize }
    }

    /// Accepts only requests for whole pages.
    pub fn validate_page_aligned(self) -> (r: Result<Self, i32>)
        ensures
            r == (if self.is_page_aligned() {
                Ok::<BlockRequest, i32>(self)
            } else {
                Err((-22) as i32)
            }),
    {
        if self.offset % PAGE_SIZE as u64 != 0 || self.bytes % PAGE_SIZE != 0 {
            return Err(-EINVAL);
        }
        Ok(self)
    }

    /// What the request is answered before any page is touched, if that is
    /// already decided.
    pub open spec fn early_answer(self, buffer_len: nat) -> Option<Result<usize, i32>> {
        match self.op {
            UblkOp::Unsupported(_) => Some(Err((-95) as i32)),
            UblkOp::Flush => Some(Ok(0)),
            UblkOp::Read | UblkOp::Write => if !self.is_page_aligned() || buffer_len < self.bytes {
                Some(Err((-22) as i32))
            } else {
                None
            },
            UblkOp::Discard | UblkOp::WriteZeroes => if !self.is_page_aligned() {
                Some(Err((-22) as i32))
            } else {
                None
            },
        }
    }
}

/// What to do with one page. `offset` is where the page lies on the device,
/// `at` where it lies in the buffer of the request.
#[derive(Debug, Clone, Copy, PartialEq, Eq, Structural)]
pub enum PageTask {
    Read { offset: u64, at: usize },
    Write { offset: u64, at: usize },
    Discard { offset: u64 },
    WriteZeroes { offset: u64 },
}

/// How a request goes on.
#[derive(Debug, Clone, Copy, PartialEq, Eq)]
pub enum RequestStep {
    /// Do this page, then report.
    Page(PageTask),
    /// The request is over: the number of bytes, or a negative error number.
    Finished(Result<usize, i32>),
}

/// A request that is being carried out.
pub struct RequestRun {
    request: BlockRequest,
    done: usize,
}

impl RequestRun {
    /// The request.
    pub closed spec fn request(&self) -> BlockRequest {
        self.request
    }

    /// How many pages were done.
    pub closed spec fn pages_done(&self) -> nat {
        self.done as nat
    }

    pub closed spec fn wf(&self) -> bool {
        &&& self.request.is_page_aligned()
        &&& self.request.fits()
        &&& self.request.op is Read || self.request.op is Write || self.request.op is Discard
            || self.request.op is WriteZeroes
        &&& self.done * 4096 <= self.request.bytes
    }

    /// The task for the page with the given number.
    pub open spec fn task_of(request: BlockRequest, page: nat) -> PageTask {
        let offset = (request.offset + page * 4096) as u64;
        let at = (page * 4096) as usize;
        match request.op {
            UblkOp::Read => PageTask::Read { offset, at },
            UblkOp::Write => PageTask::Write { offset, at },
            UblkOp::Discard => PageTask::Discard { offset },
            _ => PageTask::WriteZeroes { offset },
        }
    }

    /// The step that follows when `done` pages of the request were done.
    pub open spec fn step_after(request: BlockRequest, done: nat) -> RequestStep {
        if done * 4096 < request.bytes {
            RequestStep::Page(Self::task_of(request, done))
        } else {
            RequestStep::Finished(Ok(request.bytes))
        }
    }

    fn next_step(&self) -> (r: RequestStep)
        requires
            self.wf(),
        ensures
            r == Self::step_after(self.request(), self.pages_done()),
    {
        let at: usize = self.done * PAGE_SIZE;
        if at >= self.request.bytes {
            return RequestStep::Finished(Ok(self.request.bytes));
        }
        let offset: u64 = self.request.offset + at as u64;
        let task = match self.request.op {
            UblkOp::Read => PageTask::Read { offset, at },
            UblkOp::Write => PageTask::Write { offset, at },
            UblkOp::Discard => PageTask::Discard { offset },
            _ => PageTask::WriteZeroes { offset },
        };
        RequestStep::Page(task)
    }

    /// Reports how the last page went, and learns what comes next. A page that
    /// failed ends the request with an I/O error.
    pub fn advance(&mut self, ok: bool) -> (r: RequestStep)
        requires
            old(self).wf(),
            old(self).pages_done() * 4096 < old(self).request().bytes,
        ensures
            final(self).wf(),
            final(self).request() == old(self).request(),
            ok ==> final(self).pages_done() == old(self).pages_done() + 1,
            ok ==> r == Self::step_after(old(self).request(), old(self).pages_done() + 1),
            !ok ==> r == RequestStep::Finished(Err((-5) as i32)),
            !ok ==> final(self).pages_done() == old(self).pages_done(),
    {
        if !ok {
            return RequestStep::Finished(Err(-EIO));
        }
        self.done = self.done + 1;
        self.next_step()
    }
}

/// Starts a request with a buffer of the given length. Either it is answered at
/// once, or it begins with its first page; only then does its range matter.
pub fn execute_request(request: BlockRequest, buffer_len: usize) -> (r: (
    Option<RequestRun>,
    RequestStep,
))
    requires
        request.early_answer(buffer_len as nat) is None ==> request.fits(),
    ensures
        match request.early_answer(buffer_len as nat) {
            Some(answer) => r.0 is None && r.1 == RequestStep::Finished(answer),
            None => {
                &&& r.0 matches Some(run)
                &&& run.wf()
                &&& run.request() == request
                &&& run.pages_done() == 0
                &&& r.1 == RequestRun::step_after(request, 0)
            },
        },
{
    match request.op {
        UblkOp::Unsupported(_) => {
            return (None, RequestStep::Finished(Err(-EOPNOTSUPP)));
        },
        UblkOp::Flush => {
            return (None, RequestStep::Finished(Ok(0)));
        },
        _ => {},
    }
    let request = match request.validate_page_aligned() {
        Err(e) => {
            return (None, RequestStep::Finished(Err(e)));
        },
        Ok(request) => request,
    };
    match request.op {
        UblkOp::Read | UblkOp::Write => {
            if buffer_len < request.bytes {
                return (None, RequestStep::Finished(Err(-EINVAL)));
            }
        },
        _ => {},
    }
    let run = RequestRun { request, done: 0 };
    let step = run.next_step();
    (Some(run), step)
}

/// The steps of a request whose pages all succeed, from page `from` on.
pub open spec fn successful_steps(request: BlockRequest, from: nat) -> Seq<RequestStep>
    decreases request.bytes + 4096 - from * 4096,
{
    if from * 4096 < request.bytes {
        seq![RequestRun::step_after(request, from)] + successful_steps(request, from + 1)
    } else {
        seq![RequestRun::step_after(request, from)]
    }
}

/// A request whose pages all succeed does every page once, in order, and then
/// reports all of its bytes.
pub proof fn law_every_page_is_done_once(request: BlockRequest, from: nat)
    requires
        request.is_page_aligned(),
        from * 4096 <= request.bytes,
    ensures
        ({
            let steps = successful_steps(request, from);
            let left = (request.bytes / 4096 - from) as nat;
            &&& steps.len() == left + 1
            &&& forall|i: int|
                0 <= i < left ==> #[trigger] steps[i] == RequestStep::Page(
                    RequestRun::task_of(request, (from + i) as nat),
                )
            &&& steps[left as int] == RequestStep::Finished(Ok(request.bytes))
        }),
    decreases request.bytes + 4096 - from * 4096,
{
    if from * 4096 < request.bytes {
        law_every_page_is_done_once(request, from + 1);
        let steps = successful_steps(request, from);
        let rest = successful_steps(request, from + 1);
        let left = (request.bytes / 4096 - from) as nat;
        assert forall|i: int| 0 <= i < left implies #[trigger] steps[i] == RequestStep::Page(
            RequestRun::task_of(request, (from + i) as nat),
        ) by {
            if i > 0 {
                assert(steps[i] == rest[i - 1]);
                assert((from + 1 + (i - 1)) as nat == (from + i) as nat);
            }
        }
        assert(steps[left as int] == rest[left - 1]);
    }
}

/// The pages of one request lie one after another on the device, without
/// overlap, and inside the request.
pub proof fn law_page_tasks_are_disjoint(request: BlockRequest, i: nat, j: nat)
    requires
        request.fits(),
        i < j,
        j * 4096 < request.bytes,
        request.bytes % 4096 == 0,
        request.op is Write,
    ensures
        RequestRun::task_of(request, i)->Write_offset + 4096 <= RequestRun::task_of(
            request,
            j,
        )->Write_offset,
        RequestRun::task_of(request, i)->Write_at + 4096 <= RequestRun::task_of(
            request,
            j,
        )->Write_at,
        RequestRun::task_of(request, j)->Write_at + 4096 <= request.bytes,
{
}

// ---------------------------------------------------------------------------
// Single pages
// ---------------------------------------------------------------------------

/// What a page task waits for.
pub enum Waiting {
    /// The page that goes to this place of the buffer.
    Page { at: usize },
    /// The page that the new one may duplicate.
    Check(PendingCheck),
}

/// How a page task goes on.
pub enum TaskStep {
    /// The page is done; it worked or it did not.
    Done(bool),
    /// Read the page at byte `offset` of the store, then report it.
    Fetch { offset: u64, waiting: Waiting },
    /// Write `pending.page` at byte `offset` of the store, then report it.
    Store { offset: u64, pending: PendingStore },
}

impl TaskStep {
    /// The step of a page task that stands for a step of its write.
    pub open spec fn of_write(step: WriteStep) -> TaskStep {
        match step {
            WriteStep::Done(result) => TaskStep::Done(result is Ok),
            WriteStep::Fetch { offset, check } => TaskStep::Fetch {
                offset,
                waiting: Waiting::Check(check),
            },
            WriteStep::Store { offset, pending } => TaskStep::Store { offset, pending },
        }
    }

    fn from_write(step: WriteStep) -> (r: TaskStep)
        ensures
            r == Self::of_write(step),
    {
        match step {
            WriteStep::Done(result) => match result {
                Ok(_) => TaskStep::Done(true),
                Err(_) => TaskStep::Done(false),
            },
            WriteStep::Fetch { offset, check } => TaskStep::Fetch {
                offset,
                waiting: Waiting::Check(check),
            },
            WriteStep::Store { offset, pending } => TaskStep::Store { offset, pending },
        }
    }
}

/// `buffer` with the bytes from `at` on replaced by `page`.
pub open spec fn with_page(buffer: Seq<u8>, at: int, page: Seq<u8>) -> Seq<u8> {
    buffer.take(at) + page + buffer.skip(at + page.len())
}

fn put_page(buffer: &mut Vec<u8>, at: usize, page: &Vec<u8>)
    requires
        at + page@.len() <= old(buffer)@.len(),
    ensures
        final(buffer)@ == with_page(old(buffer)@, at as int, page@),
{
    let len: usize = buffer.len();
    let mut i: usize = 0;
    while i < page.len()
        invariant
            i <= page.len(),
            len == old(buffer)@.len(),
            at + page@.len() <= len,
            buffer@.len() == old(buffer)@.len(),
            forall|j: int| 0 <= j < i ==> buffer@[at + j] == page@[j],
            forall|j: int|
                0 <= j < buffer@.len() && !(at <= j < at + i) ==> buffer@[j] == old(buffer)@[j],
        decreases page.len() - i,
    {
        buffer.set(at + i, page[i]);
        i += 1;
    }
    let ghost expected = with_page(old(buffer)@, at as int, page@);
    assert forall|j: int| 0 <= j < buffer@.len() implies buffer@[j] == expected[j] by {
        if at <= j < at + page@.len() {
            assert(buffer@[at + (j - at)] == page@[j - at]);
        }
    }
    assert(buffer@ =~= expected);
}

impl PageTask {
    /// Whether the part of the buffer that the task speaks of is there.
    pub open spec fn fits_buffer(self, len: nat) -> bool {
        match self {
            PageTask::Read { at, .. } => at + PAGE_SIZE <= len,
            PageTask::Write { at, .. } => at + PAGE_SIZE <= len,
            PageTask::Discard { .. } => true,
            PageTask::WriteZeroes { .. } => true,
        }
    }
}

/// Starts a page task.
pub fn start_task(task: PageTask, engine: &mut ProxyEngine, buffer: &mut Vec<u8>) -> (r: TaskStep)
    requires
        old(engine).wf(),
        task.fits_buffer(old(buffer)@.len()),
    ensures
        match task {
            PageTask::Read { offset, at } => exists|step: ReadStep|
                {
                    &&& #[trigger] step.starts_read(old(engine), final(engine), offset)
                    &&& match step {
                        ReadStep::Done(page) => {
                            &&& r == TaskStep::Done(true)
                            &&& final(buffer)@ == with_page(old(buffer)@, at as int, page@)
                        },
                        ReadStep::Fetch { offset } => {
                            &&& r == (TaskStep::Fetch { offset, waiting: Waiting::Page { at } })
                            &&& final(buffer)@ == old(buffer)@
                        },
                    }
                },
            PageTask::Write { offset, at } => {
                &&& final(buffer)@ == old(buffer)@
                &&& exists|step: WriteStep|
                    {
                        &&& #[trigger] step.starts_write(
                            old(engine),
                            final(engine),
                            offset,
                            old(buffer)@.subrange(at as int, at + PAGE_SIZE),
                        )
                        &&& r == TaskStep::of_write(step)
                    }
            },
            PageTask::Discard { offset } => {
                &&& final(buffer)@ == old(buffer)@
                &&& ProxyEngine::discards(old(engine), final(engine), offset)
                &&& r == TaskStep::Done(true)
            },
            PageTask::WriteZeroes { offset } => {
                &&& final(buffer)@ == old(buffer)@
                &&& exists|step: WriteStep|
                    {
                        &&& #[trigger] step.starts_write(
                            old(engine),
                            final(engine),
                            offset,
                            fingerprint::zero_page(),
                        )
                        &&& r == TaskStep::of_write(step)
                    }
            },
        },
{
    match task {
        PageTask::Read { offset, at } => {
            let step = engine.handle_read(offset);
            assert(step.starts_read(old(engine), engine, offset));
            match step {
                ReadStep::Done(page) => {
                    put_page(buffer, at, &page);
                    TaskStep::Done(true)
                },
                ReadStep::Fetch { offset } => TaskStep::Fetch {
                    offset,
                    waiting: Waiting::Page { at },
                },
            }
        },
        PageTask::Write { offset, at } => {
            let bytes = buffer.as_slice();
            let len: usize = bytes.len();
            assert(at + PAGE_SIZE <= len);
            let step = engine.handle_write(offset, &bytes[at..at + PAGE_SIZE]);
            TaskStep::from_write(step)
        },
        PageTask::Discard { offset } => {
            engine.handle_discard(offset);
            TaskStep::Done(true)
        },
        PageTask::WriteZeroes { offset } => {
            let zeroes: Vec<u8> = vec![0u8; PAGE_SIZE];
            assert(zeroes@ =~= fingerprint::zero_page());
            let step = engine.handle_write(offset, zeroes.as_slice());
            TaskStep::from_write(step)
        },
    }
}

/// Goes on with a page task once a page was read from the store.
pub fn resume_fetch(
    waiting: Waiting,
    engine: &mut ProxyEngine,
    buffer: &mut Vec<u8>,
    stored: Result<Vec<u8>, String>,
) -> (r: TaskStep)
    requires
        old(engine).wf(),
        match waiting {
            Waiting::Page { at } => {
                &&& at + PAGE_SIZE <= old(buffer)@.len()
                &&& stored matches Ok(page) ==> page@.len() == PAGE_SIZE
            },
            Waiting::Check(check) => check.fits(old(engine)),
        },
    ensures
        match (waiting, stored) {
            (Waiting::Page { at }, Ok(page)) => {
                &&& r == TaskStep::Done(true)
                &&& final(buffer)@ == with_page(old(buffer)@, at as int, page@)
                &&& final(engine).wf()
                &&& final(engine).ledger() == old(engine).ledger()
                &&& final(engine).dedup_table@ == old(engine).dedup_table@
                &&& final(engine).stats == old(engine).stats
                &&& final(engine).passthrough == old(engine).passthrough
                &&& final(engine).store@ == (PageStoreView {
                    pages_read: old(engine).store@.pages_read.wrapping_add(1),
                    ..old(engine).store@
                })
            },
            (Waiting::Check(check), Ok(bytes)) => {
                &&& final(buffer)@ == old(buffer)@
                &&& exists|step: WriteStep|
                    {
                        &&& #[trigger] step.resumes_check(
                            old(engine),
                            final(engine),
                            check,
                            bytes@,
                        )
                        &&& r == TaskStep::of_write(step)
                    }
            },
            (_, Err(_)) => {
                &&& r == TaskStep::Done(false)
                &&& final(buffer)@ == old(buffer)@
                &&& final(engine).wf()
                &&& final(engine).ledger() == old(engine).ledger()
                &&& final(engine).dedup_table@ == old(engine).dedup_table@
                &&& final(engine).store@ == old(engine).store@
                &&& final(engine).stats == old(engine).stats
                &&& final(engine).passthrough == old(engine).passthrough
            },
        },
{
    match waiting {
        Waiting::Page { at } => match engine.finish_read(stored) {
            Ok(page) => {
                put_page(buffer, at, &page);
                TaskStep::Done(true)
            },
            Err(_) => TaskStep::Done(false),
        },
        Waiting::Check(check) => {
            let step = engine.resume_check(check, stored);
            TaskStep::from_write(step)
        },
    }
}

/// Ends a page task once its page was stored, or failed to be.
pub fn finish_store(pending: PendingStore, engine: &mut ProxyEngine, result: Result<(), String>) -> (r:
    bool)
    requires
        old(engine).wf_with(set![pending.slot]),
    ensures
        r == (result is Ok),
        final(engine).wf(),
        final(engine).passthrough == old(engine).passthrough,
        if r {
            pending.completes(old(engine), final(engine))
        } else {
            &&& final(engine).ledger() == old(engine).ledger().freeing(pending.slot)
            &&& final(engine).dedup_table@ == old(engine).dedup_table@
            &&& final(engine).store@ == old(engine).store@
            &&& final(engine).stats == old(engine).stats
        },
{
    match engine.complete_store(pending, result) {
        Ok(_) => true,
        Err(_) => false,
    }
}

/// The answer that the driver is given.
pub fn completion_result(result: Result<usize, i32>) -> (r: i32)
    ensures
        r == match result {
            Ok(bytes) => bytes as i32,
            Err(errno) => errno,
        },
{
    match result {
        Ok(bytes) => {
            #[verifier::truncate]
            let r: i32 = bytes as i32;
            r
        },
        Err(errno) => errno,
    }
}

/// Counts consecutive completion failures. The flag says that the limit was
/// reached.
pub fn count_completion(failures: u32, ok: bool) -> (r: (u32, bool))
    requires
        failures < u32::MAX,
    ensures
        r.0 == (if ok {
            0
        } else {
            failures + 1
        }),
        r.1 == (!ok && failures + 1 >= 10),
{
    if ok {
        (0, false)
    } else {
        let failures: u32 = failures + 1;
        (failures, failures >= MAX_COMPLETION_FAILURES)
    }
}

/// The size of a device in bytes; nothing if that does not fit.
pub fn device_bytes(size_gb: u64) -> (r: Option<u64>)
    ensures
        r == (if size_gb * 0x4000_0000 <= u64::MAX {
            Some((size_gb * 0x4000_0000) as u64)
        } else {
            None
        }),
{
    size_gb.checked_mul(0x4000_0000)
}

/// How many queues a device gets on a machine with that much parallelism, where
/// it is known.
pub fn queue_count(parallelism: Option<usize>) -> (r: u16)
    ensures
        r == match parallelism {
            Some(n) => if n < 4 {
                n as u16
            } else {
                4
            },
            None => 1,
        },
{
    match parallelism {
        Some(n) => if n < MAX_QUEUES as usize {
            n as u16
        } else {
            MAX_QUEUES
        },
        None => 1,
    }
}

/// What the frontend ends with, given the errors of its queues: the first one
/// is reported.
pub fn frontend_result(errors: &Vec<String>) -> (r: Result<(), String>)
    ensures
        match r {
            Ok(_) => errors@.len() == 0,
            Err(e) => errors@.len() > 0 && e@ == "queue initialization failed: "@ + errors@[0]@,
        },
{
    if errors.len() == 0 {
        return Ok(());
    }
    let mut out = String::from_str("queue initialization failed: ");
    out.append(errors[0].as_str());
    Err(out)
}

/// Whether the frontend can start, given whether the driver's control device
/// exists.
pub fn ensure_available(control_exists: bool) -> (r: Result<(), String>)
    ensures
        match r {
            Ok(_) => control_exists,
            Err(e) => !control_exists && e@
                == "/dev/ublk-control is missing; load the kernel driver with `modprobe ublk_drv`"@,
        },
{
    if control_exists {
        Ok(())
    } else {
        Err(
            String::from_str(
                "/dev/ublk-control is missing; load the kernel driver with `modprobe ublk_drv`",
            ),
        )
    }
}

/// The numbers of the operations: 0 reads, 1 writes, 2 flushes, 3 discards and 5 writes
/// zeroes; every other number is unsupported.
pub proof fn law_operations_have_their_numbers(raw: u32)
    ensures
        UblkOp::spec_from_raw(raw) is Read <==> raw == 0,
        UblkOp::spec_from_raw(raw) is Write <==> raw == 1,
        UblkOp::spec_from_raw(raw) is Flush <==> raw == 2,
        UblkOp::spec_from_raw(raw) is Discard <==> raw == 3,
        UblkOp::spec_from_raw(raw) is WriteZeroes <==> raw == 5,
        raw == 4 || raw > 5 ==> UblkOp::spec_from_raw(raw) == UblkOp::Unsupported(raw),
{
}

/// A request is answered at once with "operation not supported" if its operation is
/// unknown, with "invalid argument" if it does not consist of whole pages or its buffer
/// is too small, and with success if it is a flush. Every other request is carried out.
pub proof fn law_bad_requests_are_refused(request: BlockRequest, buffer_len: nat)
    ensures
        ({
            let whole = request.offset % 4096 == 0 && request.bytes % 4096 == 0;
            let moves = request.op is Read || request.op is Write;
            let answer = request.early_answer(buffer_len);
            &&& answer == Some(Err::<usize, i32>(-95i32)) <==> request.op is Unsupported
            &&& answer == Some(Ok::<usize, i32>(0usize)) <==> request.op is Flush
            &&& answer == Some(Err::<usize, i32>(-22i32)) <==> !(request.op is Unsupported)
                && !(request.op is Flush) && (!whole || (moves && buffer_len < request.bytes))
            &&& answer is None <==> !(request.op is Unsupported) && !(request.op is Flush) && whole
                && (moves ==> buffer_len >= request.bytes)
        }),
{
}

/// The tasks of a request: its pages of 4096 bytes one after the other, each with its
/// offset on the device and, where bytes move, its place in the buffer. Then the request
/// is over, with all its bytes.
pub proof fn law_pages_follow_each_other(request: BlockRequest, page: nat)
    requires
        request.is_page_aligned(),
        request.fits(),
        request.op is Read || request.op is Write || request.op is Discard
            || request.op is WriteZeroes,
    ensures
        match RequestRun::step_after(request, page) {
            RequestStep::Finished(result) => {
                &&& result == Ok::<usize, i32>(request.bytes)
                &&& page * 4096 >= request.bytes
            },
            RequestStep::Page(task) => {
                &&& page * 4096 < request.bytes
                &&& match task {
                    PageTask::Read { offset, at } => {
                        &&& request.op is Read
                        &&& offset == request.offset + 4096 * page
                        &&& at == 4096 * page
                    },
                    PageTask::Write { offset, at } => {
                        &&& request.op is Write
                        &&& offset == request.offset + 4096 * page
                        &&& at == 4096 * page
                    },
                    PageTask::Discard { offset } => {
                        &&& request.op is Discard
                        &&& offset == request.offset + 4096 * page
                    },
                    PageTask::WriteZeroes { offset } => {
                        &&& request.op is WriteZeroes
                        &&& offset == request.offset + 4096 * page
                    },
                }
            },
        },
{
}

/// A page that goes into a buffer takes its place there, byte by byte, and leaves the rest.
pub proof fn law_page_goes_to_its_place(buffer: Seq<u8>, at: int, page: Seq<u8>, i: int)
    requires
        0 <= at,
        at + page.len() <= buffer.len(),
        0 <= i < buffer.len(),
    ensures
        with_page(buffer, at, page).len() == buffer.len(),
        at <= i < at + page.len() ==> with_page(buffer, at, page)[i] == page[i - at],
        i < at || at + page.len() <= i ==> with_page(buffer, at, page)[i] == buffer[i],
{
}

/// The step of a page task is that of its write: it is done as the write is, and waits for
/// what the write waits for.
pub proof fn law_task_goes_on_as_its_write(step: WriteStep)
    ensures
        match (step, TaskStep::of_write(step)) {
            (WriteStep::Done(result), TaskStep::Done(ok)) => ok <==> result is Ok,
            (
                WriteStep::Fetch { offset, check },
                TaskStep::Fetch { offset: at, waiting: Waiting::Check(kept) },
            ) => at == offset && kept == check,
            (
                WriteStep::Store { offset, pending },
                TaskStep::Store { offset: at, pending: kept },
            ) => at == offset && kept == pending,
            _ => false,
        },
{
}

/// A request fits the device if its last byte can be addressed with 64 bits, and then the
/// offsets of its pages can too.
pub proof fn law_requests_that_fit(request: BlockRequest, page: nat)
    ensures
        request.bytes > 0 ==> (request.fits() <==> request.offset + request.bytes - 1
            <= 0xffff_ffff_ffff_ffff),
        request.fits() && page * 4096 < request.bytes ==> request.offset + page * 4096
            <= 0xffff_ffff_ffff_ffff,
{
}

/// The pages of a request lie inside a buffer that has its size, and the last one does not
/// lie inside a smaller one.
pub proof fn law_tasks_fit_their_buffer(request: BlockRequest, page: nat, len: nat)
    requires
        request.is_page_aligned(),
        request.op is Read || request.op is Write,
        page * 4096 < request.bytes,
    ensures
        len >= request.bytes ==> RequestRun::task_of(request, page).fits_buffer(len),
        (page + 1) * 4096 == request.bytes && len < request.bytes ==> !RequestRun::task_of(
            request,
            page,
        ).fits_buffer(len),
{
}

} // verus!
