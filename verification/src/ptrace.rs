//! Injecting one madvise call into another process with ptrace(2).
//!
//! The injection is a sequence of ptrace operations. This module decides which
//! operation comes next, given how the last one went:
//!
//! 1. attach and wait for the stop
//! 2. read all registers and keep them (a syscall clobbers rcx and r11)
//! 3. point the registers at a `syscall` instruction in the target's vDSO, with
//!    madvise and its arguments
//! 4. run to the entry of the syscall, and to its exit
//! 5. read the result
//! 6. put all original registers back
//! 7. detach
//!
//! Whatever fails, the original registers go back before the target is let go.

use vstd::prelude::*;
use vstd::string::StringExecFns;

use crate::madvise::{MADV_MERGEABLE, SYS_MADVISE};
use crate::process_madvise;
use crate::process_madvise::errno_message;
use crate::text;
use crate::text::{
    chars_of, contains, decimal_text, parse_hex_u64, signed_text, split_char, split_lines,
    split_words,
};

verus! {

// ---------------------------------------------------------------------------
// Finding a syscall instruction
// ---------------------------------------------------------------------------

/// Largest vDSO that is searched.
pub const MAX_VDSO_BYTES: u64 = 0xa0_0000;

/// Why no syscall instruction was found.
#[derive(Debug)]
pub enum VdsoError {
    ReadMaps(String),
    NoMapping,
    BadStart,
    BadEnd,
    EndBeforeStart,
    TooLarge,
    OpenMem { pid: u32, detail: String },
    Seek(String),
    Read(String),
    NoInstruction,
}

impl VdsoError {
    pub open spec fn spec_message(self) -> Seq<char> {
        match self {
            VdsoError::ReadMaps(e) => "read maps: "@ + e@,
            VdsoError::NoMapping => "no [vdso] mapping found"@,
            VdsoError::BadStart => "bad vdso start"@,
            VdsoError::BadEnd => "bad vdso end"@,
            VdsoError::EndBeforeStart => "vdso end before start"@,
            VdsoError::TooLarge => "vdso size too large"@,
            VdsoError::OpenMem { pid, detail } => "open /proc/"@ + text::decimal(pid as nat)
                + "/mem: "@ + detail@,
            VdsoError::Seek(e) => "seek: "@ + e@,
            VdsoError::Read(e) => "read vdso: "@ + e@,
            VdsoError::NoInstruction => "no syscall instruction in vdso"@,
        }
    }

    /// The message shown to the user.
    pub fn message(&self) -> (r: String)
        ensures
            r@ == self.spec_message(),
    {
        match self {
            VdsoError::ReadMaps(e) => text::concat("read maps: ", e.as_str()),
            VdsoError::NoMapping => String::from_str("no [vdso] mapping found"),
            VdsoError::BadStart => String::from_str("bad vdso start"),
            VdsoError::BadEnd => String::from_str("bad vdso end"),
            VdsoError::EndBeforeStart => String::from_str("vdso end before start"),
            VdsoError::TooLarge => String::from_str("vdso size too large"),
            VdsoError::OpenMem { pid, detail } => {
                let mut out = String::from_str("open /proc/");
                out.append(decimal_text(*pid as u64).as_str());
                out.append("/mem: ");
                out.append(detail.as_str());
                out
            },
            VdsoError::Seek(e) => text::concat("seek: ", e.as_str()),
            VdsoError::Read(e) => text::concat("read vdso: ", e.as_str()),
            VdsoError::NoInstruction => String::from_str("no syscall instruction in vdso"),
        }
    }
}

/// The first line that speaks of the vDSO.
pub open spec fn vdso_line(lines: Seq<Seq<char>>) -> Option<Seq<char>>
    decreases lines.len(),
{
    if lines.len() == 0 {
        None
    } else if text::contains_text(lines[0], "[vdso]"@) {
        Some(lines[0])
    } else {
        vdso_line(lines.skip(1))
    }
}

/// The first word of a text, if it has one.
pub open spec fn first_word(s: Seq<char>) -> Option<Seq<char>> {
    let words = text::words(s);
    if words.len() == 0 {
        None
    } else {
        Some(words[0])
    }
}

/// The start address at the front of a maps line.
pub open spec fn line_start(line: Seq<char>) -> Option<u64> {
    text::as_u64(text::unsigned_value(text::split_at_char(line, '-')[0], 16))
}

/// The end address behind the dash of a maps line.
pub open spec fn line_end(line: Seq<char>) -> Option<u64> {
    let parts = text::split_at_char(line, '-');
    if parts.len() < 2 {
        None
    } else {
        match first_word(parts[1]) {
            None => None,
            Some(word) => text::as_u64(text::unsigned_value(word, 16)),
        }
    }
}

/// Where the vDSO lies, given the memory map of a process as text: its start and
/// its size.
pub open spec fn vdso_range(maps: Seq<char>) -> Result<(u64, u64), VdsoError> {
    match vdso_line(text::lines(maps)) {
        None => Err(VdsoError::NoMapping),
        Some(line) => match line_start(line) {
            None => Err(VdsoError::BadStart),
            Some(start) => match line_end(line) {
                None => Err(VdsoError::BadEnd),
                Some(end) => if end < start {
                    Err(VdsoError::EndBeforeStart)
                } else if end - start > MAX_VDSO_BYTES {
                    Err(VdsoError::TooLarge)
                } else {
                    Ok((start, (end - start) as u64))
                },
            },
        },
    }
}

fn find_vdso_line<'a>(lines: &Vec<&'a [char]>) -> (r: Option<&'a [char]>)
    ensures
        text::opt_view(r) == vdso_line(text::views(lines@)),
{
    let pattern = chars_of("[vdso]");
    let ghost all = text::views(lines@);
    let mut i: usize = 0;
    assert(all.skip(0) =~= all);
    while i < lines.len()
        invariant
            i <= lines.len(),
            all == text::views(lines@),
            pattern@ == "[vdso]"@,
            vdso_line(all) == vdso_line(all.skip(i as int)),
        decreases lines.len() - i,
    {
        assert(all.skip(i as int)[0] == lines@[i as int]@);
        assert(all.skip(i as int).skip(1) =~= all.skip(i + 1));
        if contains(lines[i], pattern.as_slice()) {
            return Some(lines[i]);
        }
        i += 1;
    }
    None
}

/// Locate the vDSO in the memory map of a process: its start and its size.
pub fn locate_vdso(maps: Result<String, String>) -> (r: Result<(u64, u64), VdsoError>)
    ensures
        match maps {
            Err(e) => r == Err::<(u64, u64), _>(VdsoError::ReadMaps(e)),
            Ok(maps) => r == vdso_range(maps@),
        },
        r matches Ok((start, size)) ==> start + size <= u64::MAX && size <= MAX_VDSO_BYTES,
{
    let maps = match maps {
        Ok(maps) => maps,
        Err(e) => {
            return Err(VdsoError::ReadMaps(e));
        },
    };
    let chars = chars_of(maps.as_str());
    let lines = split_lines(chars.as_slice());
    let line = match find_vdso_line(&lines) {
        None => {
            return Err(VdsoError::NoMapping);
        },
        Some(line) => line,
    };
    let parts = split_char(line, '-');
    assert(text::views(parts@)[0] == parts@[0]@);
    let start: u64 = match parse_hex_u64(parts[0]) {
        None => {
            return Err(VdsoError::BadStart);
        },
        Some(start) => start,
    };
    if parts.len() < 2 {
        return Err(VdsoError::BadEnd);
    }
    assert(text::views(parts@)[1] == parts@[1]@);
    let words = split_words(parts[1]);
    if words.len() == 0 {
        return Err(VdsoError::BadEnd);
    }
    assert(text::views(words@)[0] == words@[0]@);
    let end: u64 = match parse_hex_u64(words[0]) {
        None => {
            return Err(VdsoError::BadEnd);
        },
        Some(end) => end,
    };
    if end < start {
        return Err(VdsoError::EndBeforeStart);
    }
    let size: u64 = end - start;
    if size > MAX_VDSO_BYTES {
        return Err(VdsoError::TooLarge);
    }
    Ok((start, size))
}

/// Whether a syscall instruction stands at the given place.
pub open spec fn syscall_at(bytes: Seq<u8>, i: int) -> bool {
    0 <= i && i + 1 < bytes.len() && bytes[i] == 0x0f && bytes[i + 1] == 0x05
}

/// Finds the first syscall instruction.
fn find_syscall(bytes: &Vec<u8>) -> (r: Option<usize>)
    ensures
        match r {
            Some(at) => syscall_at(bytes@, at as int) && forall|i: int|
                i < at ==> !syscall_at(bytes@, i),
            None => forall|i: int| !syscall_at(bytes@, i),
        },
{
    let len: usize = bytes.len();
    let mut i: usize = 0;
    while i < len && i + 1 < len
        invariant
            i <= len,
            len == bytes@.len(),
            forall|k: int| k < i ==> !syscall_at(bytes@, k),
        decreases len - i,
    {
        if bytes[i] == 0x0f && bytes[i + 1] == 0x05 {
            return Some(i);
        }
        i += 1;
    }
    None
}

/// What reading the memory of the vDSO gave.
#[derive(Debug)]
pub enum VdsoRead {
    OpenFailed(String),
    SeekFailed(String),
    ReadFailed(String),
    Bytes(Vec<u8>),
}

/// Find the first `syscall` instruction (0x0F 0x05) in the vDSO, which begins at
/// `start`. Gives the address of the instruction.
pub fn find_syscall_in_vdso(pid: u32, start: u64, read: VdsoRead) -> (r: Result<u64, VdsoError>)
    requires
        read matches VdsoRead::Bytes(bytes) ==> start + bytes@.len() <= u64::MAX,
    ensures
        match read {
            VdsoRead::OpenFailed(e) => r == Err::<u64, _>(VdsoError::OpenMem { pid, detail: e }),
            VdsoRead::SeekFailed(e) => r == Err::<u64, _>(VdsoError::Seek(e)),
            VdsoRead::ReadFailed(e) => r == Err::<u64, _>(VdsoError::Read(e)),
            VdsoRead::Bytes(bytes) => match r {
                Ok(addr) => {
                    &&& start <= addr
                    &&& syscall_at(bytes@, addr - start)
                    &&& forall|i: int| i < addr - start ==> !syscall_at(bytes@, i)
                },
                Err(e) => e == VdsoError::NoInstruction && forall|i: int| !syscall_at(bytes@, i),
            },
        },
{
    let bytes = match read {
        VdsoRead::OpenFailed(e) => {
            return Err(VdsoError::OpenMem { pid, detail: e });
        },
        VdsoRead::SeekFailed(e) => {
            return Err(VdsoError::Seek(e));
        },
        VdsoRead::ReadFailed(e) => {
            return Err(VdsoError::Read(e));
        },
        VdsoRead::Bytes(bytes) => bytes,
    };
    match find_syscall(&bytes) {
        Some(i) => Ok(start + i as u64),
        None => Err(VdsoError::NoInstruction),
    }
}

// ---------------------------------------------------------------------------
// Registers
// ---------------------------------------------------------------------------

/// The user registers of an x86_64 process, all of them.
#[derive(Debug, Clone, Copy, PartialEq, Eq, Structural)]
pub struct Registers {
    pub r15: u64,
    pub r14: u64,
    pub r13: u64,
    pub r12: u64,
    pub rbp: u64,
    pub rbx: u64,
    pub r11: u64,
    pub r10: u64,
    pub r9: u64,
    pub r8: u64,
    pub rax: u64,
    pub rcx: u64,
    pub rdx: u64,
    pub rsi: u64,
    pub rdi: u64,
    pub orig_rax: u64,
    pub rip: u64,
    pub cs: u64,
    pub eflags: u64,
    pub rsp: u64,
    pub ss: u64,
    pub fs_base: u64,
    pub gs_base: u64,
    pub ds: u64,
    pub es: u64,
    pub fs: u64,
    pub gs: u64,
}

/// The call that is injected: madvise(addr, len, MADV_MERGEABLE), at the syscall
/// instruction at `syscall_addr`.
#[derive(Debug, Clone, Copy, PartialEq, Eq, Structural)]
pub struct MadviseCall {
    pub addr: u64,
    pub len: usize,
    pub syscall_addr: u64,
}

impl MadviseCall {
    /// The registers that make the call: the number in rax, the arguments in
    /// rdi, rsi and rdx, and everything else as it was.
    pub open spec fn spec_registers(self, orig: Registers) -> Registers {
        Registers {
            rip: self.syscall_addr,
            rax: 28,
            rdi: self.addr,
            rsi: self.len as u64,
            rdx: 12,
            ..orig
        }
    }

    pub fn registers(self, orig: Registers) -> (r: Registers)
        ensures
            r == self.spec_registers(orig),
            r.rip == self.syscall_addr,
            r.rax == 28,
            r.rdi == self.addr,
            r.rsi == self.len,
            r.rdx == 12,
    {
        Registers {
            rip: self.syscall_addr,
            rax: SYS_MADVISE,
            rdi: self.addr,
            rsi: self.len as u64,
            rdx: MADV_MERGEABLE as u64,
            ..orig
        }
    }
}

// ---------------------------------------------------------------------------
// Operations and replies
// ---------------------------------------------------------------------------

/// A ptrace operation on the target.
#[derive(Debug, Clone, Copy, PartialEq, Eq, Structural)]
pub enum PtraceOp {
    Attach,
    /// Wait for the target to stop.
    Wait,
    GetRegs,
    SetRegs(Registers),
    /// Continue to the next entry or exit of a syscall.
    Syscall,
    Detach,
}

/// How waiting ended.
#[derive(Debug, Clone, Copy, PartialEq, Eq, Structural)]
pub enum WaitKind {
    /// Stopped, by a trap or by another signal.
    Stopped { trap: bool },
    Exited { pid: i32, code: i32 },
    Other,
}

/// How an operation went.
#[derive(Debug)]
pub enum PtraceReply {
    Done,
    Failed(String),
    /// What waiting gave, with its description.
    Waited { kind: WaitKind, detail: String },
    Regs(Registers),
}

impl PtraceReply {
    /// Whether this can be the reply to an operation.
    pub open spec fn answers(self, op: PtraceOp) -> bool {
        self is Failed || match op {
            PtraceOp::Wait => self is Waited,
            PtraceOp::GetRegs => self is Regs,
            _ => self is Done,
        }
    }
}

/// Why an injection failed.
#[derive(Debug)]
pub enum InjectionError {
    Attach(String),
    Exited { pid: i32, code: i32 },
    UnexpectedStop(String),
    Wait(String),
    GetRegs(String),
    SetRegs(String),
    Entry(String),
    UnexpectedEntry(String),
    EntryWait(String),
    Exit(String),
    UnexpectedExit(String),
    ExitWait(String),
    Result(String),
    Restore(String),
    Detach(String),
    Madvise { errno: i32 },
}

impl InjectionError {
    pub open spec fn spec_message(self) -> Seq<char> {
        match self {
            InjectionError::Attach(e) => "ptrace attach failed: "@ + e@,
            InjectionError::Exited { pid, code } => "target process "@ + text::signed_decimal(
                pid as int,
            ) + " exited with code "@ + text::signed_decimal(code as int),
            InjectionError::UnexpectedStop(e) => "unexpected wait status: "@ + e@,
            InjectionError::Wait(e) => "waitpid failed: "@ + e@,
            InjectionError::GetRegs(e) => "getregs failed: "@ + e@,
            InjectionError::SetRegs(e) => "setregs failed: "@ + e@,
            InjectionError::Entry(e) => "ptrace syscall (entry) failed: "@ + e@,
            InjectionError::UnexpectedEntry(e) => "unexpected wait at syscall entry: "@ + e@,
            InjectionError::EntryWait(e) => "waitpid at syscall entry failed: "@ + e@,
            InjectionError::Exit(e) => "ptrace syscall (exit) failed: "@ + e@,
            InjectionError::UnexpectedExit(e) => "unexpected wait at syscall exit: "@ + e@,
            InjectionError::ExitWait(e) => "waitpid at syscall exit failed: "@ + e@,
            InjectionError::Result(e) => "getregs after syscall failed: "@ + e@,
            InjectionError::Restore(e) =>
                "failed to restore registers after ptrace injection: "@ + e@,
            InjectionError::Detach(e) => "ptrace detach failed: "@ + e@,
            InjectionError::Madvise { errno } => "madvise failed: "@ + process_madvise::errno_text(
                errno as int,
            ),
        }
    }

    /// The message shown to the user.
    pub fn message(&self) -> (r: String)
        ensures
            r@ == self.spec_message(),
    {
        match self {
            InjectionError::Attach(e) => text::concat("ptrace attach failed: ", e.as_str()),
            InjectionError::Exited { pid, code } => {
                let mut out = String::from_str("target process ");
                out.append(signed_text(*pid as i64).as_str());
                out.append(" exited with code ");
                out.append(signed_text(*code as i64).as_str());
                out
            },
            InjectionError::UnexpectedStop(e) => text::concat(
                "unexpected wait status: ",
                e.as_str(),
            ),
            InjectionError::Wait(e) => text::concat("waitpid failed: ", e.as_str()),
            InjectionError::GetRegs(e) => text::concat("getregs failed: ", e.as_str()),
            InjectionError::SetRegs(e) => text::concat("setregs failed: ", e.as_str()),
            InjectionError::Entry(e) => text::concat(
                "ptrace syscall (entry) failed: ",
                e.as_str(),
            ),
            InjectionError::UnexpectedEntry(e) => text::concat(
                "unexpected wait at syscall entry: ",
                e.as_str(),
            ),
            InjectionError::EntryWait(e) => text::concat(
                "waitpid at syscall entry failed: ",
                e.as_str(),
            ),
            InjectionError::Exit(e) => text::concat("ptrace syscall (exit) failed: ", e.as_str()),
            InjectionError::UnexpectedExit(e) => text::concat(
                "unexpected wait at syscall exit: ",
                e.as_str(),
            ),
            InjectionError::ExitWait(e) => text::concat(
                "waitpid at syscall exit failed: ",
                e.as_str(),
            ),
            InjectionError::Result(e) => text::concat("getregs after syscall failed: ", e.as_str()),
            InjectionError::Restore(e) => text::concat(
                "failed to restore registers after ptrace injection: ",
                e.as_str(),
            ),
            InjectionError::Detach(e) => text::concat("ptrace detach failed: ", e.as_str()),
            InjectionError::Madvise { errno } => text::concat(
                "madvise failed: ",
                errno_message(*errno).as_str(),
            ),
        }
    }
}

// ---------------------------------------------------------------------------
// The injection
// ---------------------------------------------------------------------------

/// Where an injection stands: what it does next.
#[derive(Debug)]
pub enum Stage {
    Attach,
    AwaitStop,
    ReadRegs,
    WriteRegs { orig: Registers },
    Enter { orig: Registers },
    AwaitEntry { orig: Registers },
    Leave { orig: Registers },
    AwaitExit { orig: Registers },
    ReadResult { orig: Registers },
    Restore { orig: Registers, rax: u64 },
    Detach { rax: u64 },
    /// Something failed: put the registers back, then let go.
    UndoRegs { orig: Registers, error: InjectionError },
    /// Something failed: let go.
    UndoAttach { error: InjectionError },
    Finished(Result<(), InjectionError>),
}

/// What the return value of a syscall means: small negative values are error
/// numbers.
pub open spec fn spec_call_result(rax: u64) -> Result<(), InjectionError> {
    if rax > 0xffff_ffff_ffff_f000 {
        Err(InjectionError::Madvise { errno: (0x1_0000_0000_0000_0000 - rax) as i32 })
    } else {
        Ok(())
    }
}

/// What the return value of a syscall means: small negative values are error
/// numbers.
pub fn call_result(rax: u64) -> (r: Result<(), InjectionError>)
    ensures
        r == spec_call_result(rax),
{
    if rax > 0xffff_ffff_ffff_f000 {
        let errno: u64 = 0xffff_ffff_ffff_ffff - rax + 1;
        return Err(InjectionError::Madvise { errno: errno as i32 });
    }
    Ok(())
}

/// What waiting for the trap at one end of a syscall comes to.
pub open spec fn trapped(kind: WaitKind) -> bool {
    kind matches WaitKind::Stopped { trap } && trap
}

impl Stage {
    /// The operation that the stage asks for.
    pub open spec fn spec_op(self, call: MadviseCall) -> Option<PtraceOp> {
        match self {
            Stage::Attach => Some(PtraceOp::Attach),
            Stage::AwaitStop => Some(PtraceOp::Wait),
            Stage::ReadRegs => Some(PtraceOp::GetRegs),
            Stage::WriteRegs { orig } => Some(PtraceOp::SetRegs(call.spec_registers(orig))),
            Stage::Enter { .. } => Some(PtraceOp::Syscall),
            Stage::AwaitEntry { .. } => Some(PtraceOp::Wait),
            Stage::Leave { .. } => Some(PtraceOp::Syscall),
            Stage::AwaitExit { .. } => Some(PtraceOp::Wait),
            Stage::ReadResult { .. } => Some(PtraceOp::GetRegs),
            Stage::Restore { orig, .. } => Some(PtraceOp::SetRegs(orig)),
            Stage::Detach { .. } => Some(PtraceOp::Detach),
            Stage::UndoRegs { orig, .. } => Some(PtraceOp::SetRegs(orig)),
            Stage::UndoAttach { .. } => Some(PtraceOp::Detach),
            Stage::Finished(_) => None,
        }
    }

    /// The stage that follows when the operation went as the reply says.
    pub open spec fn after(self, reply: PtraceReply) -> Stage {
        match self {
            Stage::Attach => match reply {
                PtraceReply::Failed(e) => Stage::Finished(Err(InjectionError::Attach(e))),
                _ => Stage::AwaitStop,
            },
            Stage::AwaitStop => match reply {
                PtraceReply::Failed(e) => Stage::UndoAttach { error: InjectionError::Wait(e) },
                PtraceReply::Waited { kind, detail } => match kind {
                    WaitKind::Stopped { .. } => Stage::ReadRegs,
                    WaitKind::Exited { pid, code } => Stage::Finished(
                        Err(InjectionError::Exited { pid, code }),
                    ),
                    WaitKind::Other => Stage::Finished(Err(InjectionError::UnexpectedStop(detail))),
                },
                _ => Stage::ReadRegs,
            },
            Stage::ReadRegs => match reply {
                PtraceReply::Failed(e) => Stage::UndoAttach { error: InjectionError::GetRegs(e) },
                PtraceReply::Regs(orig) => Stage::WriteRegs { orig },
                _ => Stage::ReadRegs,
            },
            Stage::WriteRegs { orig } => match reply {
                PtraceReply::Failed(e) => Stage::UndoAttach { error: InjectionError::SetRegs(e) },
                _ => Stage::Enter { orig },
            },
            Stage::Enter { orig } => match reply {
                PtraceReply::Failed(e) => Stage::UndoRegs { orig, error: InjectionError::Entry(e) },
                _ => Stage::AwaitEntry { orig },
            },
            Stage::AwaitEntry { orig } => match reply {
                PtraceReply::Failed(e) => Stage::UndoRegs {
                    orig,
                    error: InjectionError::EntryWait(e),
                },
                PtraceReply::Waited { kind, detail } => if trapped(kind) {
                    Stage::Leave { orig }
                } else {
                    Stage::UndoRegs { orig, error: InjectionError::UnexpectedEntry(detail) }
                },
                _ => Stage::Leave { orig },
            },
            Stage::Leave { orig } => match reply {
                PtraceReply::Failed(e) => Stage::UndoRegs { orig, error: InjectionError::Exit(e) },
                _ => Stage::AwaitExit { orig },
            },
            Stage::AwaitExit { orig } => match reply {
                PtraceReply::Failed(e) => Stage::UndoRegs {
                    orig,
                    error: InjectionError::ExitWait(e),
                },
                PtraceReply::Waited { kind, detail } => if trapped(kind) {
                    Stage::ReadResult { orig }
                } else {
                    Stage::UndoRegs { orig, error: InjectionError::UnexpectedExit(detail) }
                },
                _ => Stage::ReadResult { orig },
            },
            Stage::ReadResult { orig } => match reply {
                PtraceReply::Failed(e) => Stage::UndoRegs {
                    orig,
                    error: InjectionError::Result(e),
                },
                PtraceReply::Regs(regs) => Stage::Restore { orig, rax: regs.rax },
                _ => Stage::ReadResult { orig },
            },
            Stage::Restore { orig, rax } => match reply {
                PtraceReply::Failed(e) => Stage::UndoAttach { error: InjectionError::Restore(e) },
                _ => Stage::Detach { rax },
            },
            Stage::Detach { rax } => match reply {
                PtraceReply::Failed(e) => Stage::Finished(Err(InjectionError::Detach(e))),
                _ => Stage::Finished(spec_call_result(rax)),
            },
            Stage::UndoRegs { orig, error } => Stage::UndoAttach { error },
            Stage::UndoAttach { error } => Stage::Finished(Err(error)),
            Stage::Finished(result) => Stage::Finished(result),
        }
    }
}

/// One injection of madvise(MADV_MERGEABLE) into a target process.
#[derive(Debug)]
pub struct Injection {
    pub call: MadviseCall,
    pub stage: Stage,
}

/// Starts an injection: the target is attached first.
pub fn madvise_via_ptrace(addr: u64, len: usize, syscall_addr: u64) -> (r: Injection)
    ensures
        r.call == (MadviseCall { addr, len, syscall_addr }),
        r.stage == Stage::Attach,
{
    Injection { call: MadviseCall { addr, len, syscall_addr }, stage: Stage::Attach }
}

impl Injection {
    /// The operation to do next; none once the injection is over.
    pub fn op(&self) -> (r: Option<PtraceOp>)
        ensures
            r == self.stage.spec_op(self.call),
    {
        match &self.stage {
            Stage::Attach => Some(PtraceOp::Attach),
            Stage::AwaitStop => Some(PtraceOp::Wait),
            Stage::ReadRegs => Some(PtraceOp::GetRegs),
            Stage::WriteRegs { orig } => Some(PtraceOp::SetRegs(self.call.registers(*orig))),
            Stage::Enter { .. } => Some(PtraceOp::Syscall),
            Stage::AwaitEntry { .. } => Some(PtraceOp::Wait),
            Stage::Leave { .. } => Some(PtraceOp::Syscall),
            Stage::AwaitExit { .. } => Some(PtraceOp::Wait),
            Stage::ReadResult { .. } => Some(PtraceOp::GetRegs),
            Stage::Restore { orig, .. } => Some(PtraceOp::SetRegs(*orig)),
            Stage::Detach { .. } => Some(PtraceOp::Detach),
            Stage::UndoRegs { orig, .. } => Some(PtraceOp::SetRegs(*orig)),
            Stage::UndoAttach { .. } => Some(PtraceOp::Detach),
            Stage::Finished(_) => None,
        }
    }

    /// Goes on with how the last operation went.
    pub fn advance(self, reply: PtraceReply) -> (r: Self)
        ensures
            r.call == self.call,
            r.stage == self.stage.after(reply),
    {
        let stage = match self.stage {
            Stage::Attach => match reply {
                PtraceReply::Failed(e) => Stage::Finished(Err(InjectionError::Attach(e))),
                _ => Stage::AwaitStop,
            },
            Stage::AwaitStop => match reply {
                PtraceReply::Failed(e) => Stage::UndoAttach { error: InjectionError::Wait(e) },
                PtraceReply::Waited { kind, detail } => match kind {
                    WaitKind::Stopped { .. } => Stage::ReadRegs,
                    WaitKind::Exited { pid, code } => Stage::Finished(
                        Err(InjectionError::Exited { pid, code }),
                    ),
                    WaitKind::Other => Stage::Finished(Err(InjectionError::UnexpectedStop(detail))),
                },
                _ => Stage::ReadRegs,
            },
            Stage::ReadRegs => match reply {
                PtraceReply::Failed(e) => Stage::UndoAttach { error: InjectionError::GetRegs(e) },
                PtraceReply::Regs(orig) => Stage::WriteRegs { orig },
                _ => Stage::ReadRegs,
            },
            Stage::WriteRegs { orig } => match reply {
                PtraceReply::Failed(e) => Stage::UndoAttach { error: InjectionError::SetRegs(e) },
                _ => Stage::Enter { orig },
            },
            Stage::Enter { orig } => match reply {
                PtraceReply::Failed(e) => Stage::UndoRegs { orig, error: InjectionError::Entry(e) },
                _ => Stage::AwaitEntry { orig },
            },
            Stage::AwaitEntry { orig } => match reply {
                PtraceReply::Failed(e) => Stage::UndoRegs {
                    orig,
                    error: InjectionError::EntryWait(e),
                },
                PtraceReply::Waited { kind, detail } => match kind {
                    WaitKind::Stopped { trap: true } => Stage::Leave { orig },
                    _ => Stage::UndoRegs { orig, error: InjectionError::UnexpectedEntry(detail) },
                },
                _ => Stage::Leave { orig },
            },
            Stage::Leave { orig } => match reply {
                PtraceReply::Failed(e) => Stage::UndoRegs { orig, error: InjectionError::Exit(e) },
                _ => Stage::AwaitExit { orig },
            },
            Stage::AwaitExit { orig } => match reply {
                PtraceReply::Failed(e) => Stage::UndoRegs {
                    orig,
                    error: InjectionError::ExitWait(e),
                },
                PtraceReply::Waited { kind, detail } => match kind {
                    WaitKind::Stopped { trap: true } => Stage::ReadResult { orig },
                    _ => Stage::UndoRegs { orig, error: InjectionError::UnexpectedExit(detail) },
                },
                _ => Stage::ReadResult { orig },
            },
            Stage::ReadResult { orig } => match reply {
                PtraceReply::Failed(e) => Stage::UndoRegs {
                    orig,
                    error: InjectionError::Result(e),
                },
                PtraceReply::Regs(regs) => Stage::Restore { orig, rax: regs.rax },
                _ => Stage::ReadResult { orig },
            },
            Stage::Restore { orig: _, rax } => match reply {
                PtraceReply::Failed(e) => Stage::UndoAttach { error: InjectionError::Restore(e) },
                _ => Stage::Detach { rax },
            },
            Stage::Detach { rax } => match reply {
                PtraceReply::Failed(e) => Stage::Finished(Err(InjectionError::Detach(e))),
                _ => Stage::Finished(call_result(rax)),
            },
            Stage::UndoRegs { orig: _, error } => Stage::UndoAttach { error },
            Stage::UndoAttach { error } => Stage::Finished(Err(error)),
            Stage::Finished(result) => Stage::Finished(result),
        };
        Injection { call: self.call, stage }
    }
}

// ---------------------------------------------------------------------------
// Laws
// ---------------------------------------------------------------------------

impl Stage {
    /// The registers that the target had before it was disturbed, while it runs
    /// with foreign ones.
    pub open spec fn disturbed(self) -> Option<Registers> {
        match self {
            Stage::Enter { orig } => Some(orig),
            Stage::AwaitEntry { orig } => Some(orig),
            Stage::Leave { orig } => Some(orig),
            Stage::AwaitExit { orig } => Some(orig),
            Stage::ReadResult { orig } => Some(orig),
            Stage::Restore { orig, .. } => Some(orig),
            Stage::UndoRegs { orig, .. } => Some(orig),
            _ => None,
        }
    }

    /// Whether the target is attached and has to be let go.
    pub open spec fn attached(self) -> bool {
        !(self is Attach || self is Finished)
    }

    /// How many operations are left at most.
    pub open spec fn steps_left(self) -> nat {
        match self {
            Stage::Attach => 11,
            Stage::AwaitStop => 10,
            Stage::ReadRegs => 9,
            Stage::WriteRegs { .. } => 8,
            Stage::Enter { .. } => 7,
            Stage::AwaitEntry { .. } => 6,
            Stage::Leave { .. } => 5,
            Stage::AwaitExit { .. } => 4,
            Stage::ReadResult { .. } => 3,
            Stage::Restore { .. } => 2,
            Stage::Detach { .. } => 1,
            Stage::UndoRegs { .. } => 2,
            Stage::UndoAttach { .. } => 1,
            Stage::Finished(_) => 0,
        }
    }
}

/// A target whose registers were changed is never let go before its original
/// registers were put back: as long as it is disturbed no operation detaches it,
/// and the disturbance only ends with the operation that writes exactly those
/// registers.
pub proof fn law_registers_go_back_before_detach(
    call: MadviseCall,
    stage: Stage,
    reply: PtraceReply,
    orig: Registers,
)
    requires
        stage.disturbed() == Some(orig),
    ensures
        stage.spec_op(call) is Some,
        stage.spec_op(call) != Some(PtraceOp::Detach),
        stage.after(reply).disturbed() == Some(orig) || stage.spec_op(call) == Some(
            PtraceOp::SetRegs(orig),
        ),
{
}

/// The only operation that changes registers, other than putting the original
/// ones back, writes the call's registers, and it is followed by a disturbed stage
/// that remembers the original ones, unless the write failed.
pub proof fn law_original_registers_are_remembered(
    call: MadviseCall,
    stage: Stage,
    reply: PtraceReply,
    regs: Registers,
)
    requires
        stage.spec_op(call) == Some(PtraceOp::SetRegs(regs)),
        stage.disturbed() is None,
        !(reply is Failed),
    ensures
        stage.after(reply).disturbed() matches Some(orig) && regs == call.spec_registers(orig),
{
}

/// An attached target is let go before the injection is over, unless it is gone
/// or in a state that ptrace does not control: the end is reached by detaching or
/// from the first wait.
pub proof fn law_target_is_let_go(call: MadviseCall, stage: Stage, reply: PtraceReply)
    requires
        stage.attached(),
        stage.after(reply) is Finished,
    ensures
        stage.spec_op(call) == Some(PtraceOp::Detach) || (stage is AwaitStop && reply is Waited),
{
}

/// Every fitting reply brings an injection closer to its end, which it reaches
/// after at most eleven operations.
pub proof fn law_injection_ends(call: MadviseCall, stage: Stage, reply: PtraceReply)
    requires
        stage.spec_op(call) matches Some(op) && reply.answers(op),
    ensures
        stage.after(reply).steps_left() < stage.steps_left() <= 11,
{
}

/// An injection only succeeds if the call in the target returned no error.
pub proof fn law_success_means_the_call_worked(stage: Stage, reply: PtraceReply)
    requires
        !(stage is Finished),
        stage.after(reply) == Stage::Finished(Ok(())),
    ensures
        stage matches Stage::Detach { rax } && rax <= 0xffff_ffff_ffff_f000,
{
}

/// The target is made to call madvise on exactly the region that was asked for. Once
/// it was attached, stopped and its registers were read, the next operation writes
/// registers with the whole address in rdi, the length in rsi, the advice in rdx, the
/// number of madvise in rax and the place of the syscall instruction in rip, and with
/// every other register as it was.
pub proof fn law_region_is_handed_over(
    addr: u64,
    len: usize,
    syscall_addr: u64,
    trap: bool,
    detail: String,
    orig: Registers,
)
    ensures
        ({
            let call = MadviseCall { addr, len, syscall_addr };
            let ready = Stage::Attach.after(PtraceReply::Done).after(
                PtraceReply::Waited { kind: WaitKind::Stopped { trap }, detail },
            ).after(PtraceReply::Regs(orig));
            ready.spec_op(call) matches Some(PtraceOp::SetRegs(regs)) && {
                &&& regs.rdi == addr
                &&& regs.rsi == len
                &&& regs.rdx == 12
                &&& regs.rax == 28
                &&& regs.rip == syscall_addr
                &&& regs.r15 == orig.r15
                &&& regs.r14 == orig.r14
                &&& regs.r13 == orig.r13
                &&& regs.r12 == orig.r12
                &&& regs.rbp == orig.rbp
                &&& regs.rbx == orig.rbx
                &&& regs.r11 == orig.r11
                &&& regs.r10 == orig.r10
                &&& regs.r9 == orig.r9
                &&& regs.r8 == orig.r8
                &&& regs.rcx == orig.rcx
                &&& regs.orig_rax == orig.orig_rax
                &&& regs.cs == orig.cs
                &&& regs.eflags == orig.eflags
                &&& regs.rsp == orig.rsp
                &&& regs.ss == orig.ss
                &&& regs.fs_base == orig.fs_base
                &&& regs.gs_base == orig.gs_base
                &&& regs.ds == orig.ds
                &&& regs.es == orig.es
                &&& regs.fs == orig.fs
                &&& regs.gs == orig.gs
            }
        }),
{
}

/// The operations of an injection in which everything works: attach, stop, read the
/// registers, write those of the call, run into the syscall and out of it, read the
/// result, put the very registers back that were read at first, and let go. The outcome
/// is what the call returned.
pub proof fn law_working_injection_runs_to_its_end(
    call: MadviseCall,
    details: (String, String, String),
    orig: Registers,
    result: Registers,
)
    ensures
        ({
            let stopped = WaitKind::Stopped { trap: true };
            let s1 = Stage::Attach.after(PtraceReply::Done);
            let s2 = s1.after(PtraceReply::Waited { kind: stopped, detail: details.0 });
            let s3 = s2.after(PtraceReply::Regs(orig));
            let s4 = s3.after(PtraceReply::Done);
            let s5 = s4.after(PtraceReply::Done);
            let s6 = s5.after(PtraceReply::Waited { kind: stopped, detail: details.1 });
            let s7 = s6.after(PtraceReply::Done);
            let s8 = s7.after(PtraceReply::Waited { kind: stopped, detail: details.2 });
            let s9 = s8.after(PtraceReply::Regs(result));
            let s10 = s9.after(PtraceReply::Done);
            let s11 = s10.after(PtraceReply::Done);
            &&& Stage::Attach.spec_op(call) == Some(PtraceOp::Attach)
            &&& s1.spec_op(call) == Some(PtraceOp::Wait)
            &&& s2.spec_op(call) == Some(PtraceOp::GetRegs)
            &&& s3.spec_op(call) matches Some(PtraceOp::SetRegs(_))
            &&& s4.spec_op(call) == Some(PtraceOp::Syscall)
            &&& s5.spec_op(call) == Some(PtraceOp::Wait)
            &&& s6.spec_op(call) == Some(PtraceOp::Syscall)
            &&& s7.spec_op(call) == Some(PtraceOp::Wait)
            &&& s8.spec_op(call) == Some(PtraceOp::GetRegs)
            &&& s9.spec_op(call) == Some(PtraceOp::SetRegs(orig))
            &&& s10.spec_op(call) == Some(PtraceOp::Detach)
            &&& s11.spec_op(call) is None
            &&& s11 == Stage::Finished(spec_call_result(result.rax))
        }),
{
}

/// A returned value stands for an error exactly if it is one of the 4095 smallest
/// negative numbers, and then the error number is its negation.
pub proof fn law_small_negative_values_are_errors(rax: u64, errno: i32)
    requires
        1 <= errno <= 4095,
    ensures
        spec_call_result((0x1_0000_0000_0000_0000 - errno) as u64) == Err::<(), InjectionError>(
            InjectionError::Madvise { errno },
        ),
        spec_call_result(rax) is Ok <==> rax + 4095 < 0x1_0000_0000_0000_0000,
{
}

impl Stage {
    /// Whether the injection can only end with an error from here on.
    pub open spec fn doomed(self) -> bool {
        match self {
            Stage::UndoRegs { .. } => true,
            Stage::UndoAttach { .. } => true,
            Stage::Finished(result) => result is Err,
            _ => false,
        }
    }
}

/// No failure is passed over: once an operation fails, or the target stops otherwise
/// than expected, the injection ends with an error, whatever the operations that clean
/// up give.
pub proof fn law_failures_are_reported(stage: Stage, reply: PtraceReply)
    requires
        !(stage is Finished),
        stage.doomed() || reply is Failed || (reply matches PtraceReply::Waited { kind, .. } && !(
        kind is Stopped)),
        reply is Waited ==> stage.doomed() || stage is AwaitStop || stage is AwaitEntry
            || stage is AwaitExit,
    ensures
        stage.after(reply).doomed(),
{
}

/// An error that is kept while the target is put in order is the one that is reported.
pub proof fn law_first_error_is_reported(
    orig: Registers,
    error: InjectionError,
    reply: PtraceReply,
    last: PtraceReply,
)
    ensures
        (Stage::UndoRegs { orig, error }).after(reply).after(last) == Stage::Finished(Err(error)),
        (Stage::UndoAttach { error }).after(last) == Stage::Finished(Err(error)),
{
}

/// The report of an operation that failed holds the description of the failure.
pub proof fn law_failures_are_described(stage: Stage, e: String, error: InjectionError)
    requires
        match stage.after(PtraceReply::Failed(e)) {
            Stage::UndoRegs { error: it, .. } => it == error,
            Stage::UndoAttach { error: it } => it == error,
            Stage::Finished(result) => result == Err::<(), _>(error),
            _ => false,
        },
        !stage.doomed(),
        !(stage is Finished),
    ensures
        text::contains_text(error.spec_message(), e@),
{
    let all = error.spec_message();
    let at = all.len() - e@.len();
    assert(all.subrange(at, all.len() as int) =~= e@);
    assert(text::occurs_at(all, e@, at));
}

/// A syscall instruction is two bytes: 0x0f and 0x05.
pub proof fn law_syscall_instruction_has_two_bytes(bytes: Seq<u8>, i: int)
    requires
        0 <= i < bytes.len() - 1,
    ensures
        syscall_at(bytes, i) <==> bytes.subrange(i, i + 2) == seq![0x0fu8, 0x05u8],
{
    let two = bytes.subrange(i, i + 2);
    assert(two[0] == bytes[i] && two[1] == bytes[i + 1]);
    if bytes[i] == 0x0f && bytes[i + 1] == 0x05 {
        assert(two =~= seq![0x0fu8, 0x05u8]);
    }
}

impl Stage {
    /// The message of the error with which the injection ends from here on, if it is known.
    pub open spec fn complaint(self) -> Option<Seq<char>> {
        match self {
            Stage::UndoRegs { error, .. } => Some(error.spec_message()),
            Stage::UndoAttach { error } => Some(error.spec_message()),
            Stage::Finished(result) => match result {
                Err(error) => Some(error.spec_message()),
                Ok(_) => None,
            },
            _ => None,
        }
    }
}

/// A failure is reported with the step at which it came and what was said of it.
pub proof fn law_failed_steps_are_named(orig: Registers, rax: u64, e: String)
    ensures
        (Stage::Attach).after(PtraceReply::Failed(e)).complaint() == Some(
            "ptrace attach failed: "@ + e@,
        ),
        (Stage::AwaitStop).after(PtraceReply::Failed(e)).complaint() == Some(
            "waitpid failed: "@ + e@,
        ),
        (Stage::ReadRegs).after(PtraceReply::Failed(e)).complaint() == Some(
            "getregs failed: "@ + e@,
        ),
        (Stage::WriteRegs { orig }).after(PtraceReply::Failed(e)).complaint() == Some(
            "setregs failed: "@ + e@,
        ),
        (Stage::Enter { orig }).after(PtraceReply::Failed(e)).complaint() == Some(
            "ptrace syscall (entry) failed: "@ + e@,
        ),
        (Stage::AwaitEntry { orig }).after(PtraceReply::Failed(e)).complaint() == Some(
            "waitpid at syscall entry failed: "@ + e@,
        ),
        (Stage::Leave { orig }).after(PtraceReply::Failed(e)).complaint() == Some(
            "ptrace syscall (exit) failed: "@ + e@,
        ),
        (Stage::AwaitExit { orig }).after(PtraceReply::Failed(e)).complaint() == Some(
            "waitpid at syscall exit failed: "@ + e@,
        ),
        (Stage::ReadResult { orig }).after(PtraceReply::Failed(e)).complaint() == Some(
            "getregs after syscall failed: "@ + e@,
        ),
        (Stage::Restore { orig, rax }).after(PtraceReply::Failed(e)).complaint() == Some(
            "failed to restore registers after ptrace injection: "@ + e@,
        ),
        (Stage::Detach { rax }).after(PtraceReply::Failed(e)).complaint() == Some(
            "ptrace detach failed: "@ + e@,
        ),
{
}

/// A target that stops otherwise than expected ends the injection: at first it has to
/// stop, and around the call it has to stop with a trap. An exit is reported with its
/// code.
pub proof fn law_unexpected_stops_end_the_injection(
    orig: Registers,
    kind: WaitKind,
    detail: String,
    pid: i32,
    code: i32,
)
    ensures
        ({
            let reply = PtraceReply::Waited { kind, detail };
            let traps = kind == (WaitKind::Stopped { trap: true });
            &&& Stage::AwaitStop.after(reply) is ReadRegs <==> kind is Stopped
            &&& (Stage::AwaitEntry { orig }).after(reply) is Leave <==> traps
            &&& (Stage::AwaitExit { orig }).after(reply) is ReadResult <==> traps
            &&& !traps ==> (Stage::AwaitEntry { orig }).after(reply).complaint() == Some(
                "unexpected wait at syscall entry: "@ + detail@,
            )
            &&& !traps ==> (Stage::AwaitExit { orig }).after(reply).complaint() == Some(
                "unexpected wait at syscall exit: "@ + detail@,
            )
        }),
        Stage::AwaitStop.after(
            PtraceReply::Waited { kind: WaitKind::Exited { pid, code }, detail },
        ).complaint() == Some(
            "target process "@ + text::signed_decimal(pid as int) + " exited with code "@
                + text::signed_decimal(code as int),
        ),
        Stage::AwaitStop.after(PtraceReply::Waited { kind: WaitKind::Other, detail }).complaint()
            == Some("unexpected wait status: "@ + detail@),
{
}

/// Each operation takes the reply that it is meant to get, and any takes a failure.
pub proof fn law_replies_fit_their_operations(reply: PtraceReply, regs: Registers)
    ensures
        reply.answers(PtraceOp::Wait) <==> reply is Failed || reply is Waited,
        reply.answers(PtraceOp::GetRegs) <==> reply is Failed || reply is Regs,
        reply.answers(PtraceOp::Attach) <==> reply is Failed || reply is Done,
        reply.answers(PtraceOp::SetRegs(regs)) <==> reply is Failed || reply is Done,
        reply.answers(PtraceOp::Syscall) <==> reply is Failed || reply is Done,
        reply.answers(PtraceOp::Detach) <==> reply is Failed || reply is Done,
{
}

proof fn lemma_vdso_line(before: Seq<Seq<char>>, line: Seq<char>, after: Seq<Seq<char>>)
    requires
        forall|i: int|
            0 <= i < before.len() ==> !text::contains_text(#[trigger] before[i], "[vdso]"@),
        text::contains_text(line, "[vdso]"@),
    ensures
        vdso_line(before + seq![line] + after) == Some(line),
        vdso_line(before) is None,
    decreases before.len(),
{
    let all = before + seq![line] + after;
    if before.len() == 0 {
        assert(all[0] == line);
    } else {
        assert(!text::contains_text(before[0], "[vdso]"@));
        assert(all[0] == before[0]);
        let rest = before.skip(1);
        assert forall|i: int| 0 <= i < rest.len() implies !text::contains_text(
            #[trigger] rest[i],
            "[vdso]"@,
        ) by {
            assert(!text::contains_text(before[i + 1], "[vdso]"@));
        }
        lemma_vdso_line(rest, line, after);
        assert(all.skip(1) =~= rest + seq![line] + after);
    }
}

/// The place of the vdso is read from the first line of the memory map that names it: from
/// the start of its range on, as many bytes as it has. A range that is turned around or
/// has more than ten megabytes is refused, and so is a map without such a line.
pub proof fn law_vdso_is_found_in_the_map(
    maps: Seq<char>,
    before: Seq<Seq<char>>,
    start: Seq<char>,
    end: Seq<char>,
    rest: Seq<char>,
    after: Seq<Seq<char>>,
    range: (u64, u64),
)
    requires
        forall|i: int|
            0 <= i < before.len() ==> !text::contains_text(#[trigger] before[i], "[vdso]"@),
        text::unsigned_value(start, 16) == Some(range.0 as nat),
        text::unsigned_value(end, 16) == Some(range.1 as nat),
        !start.contains('-') && !end.contains('-') && !rest.contains('-'),
        end.len() > 0,
        forall|i: int| 0 <= i < end.len() ==> !text::is_white(#[trigger] end[i]),
        text::contains_text(start + seq!['-'] + (end + seq![' '] + rest), "[vdso]"@),
    ensures
        text::lines(maps) == before ==> vdso_range(maps) == Err::<(u64, u64), VdsoError>(
            VdsoError::NoMapping,
        ),
        text::lines(maps) == before + seq![start + seq!['-'] + (end + seq![' '] + rest)] + after
            ==> vdso_range(maps) == (if range.1 < range.0 {
            Err(VdsoError::EndBeforeStart)
        } else if range.1 - range.0 > 10485760 {
            Err(VdsoError::TooLarge)
        } else {
            Ok((range.0, (range.1 - range.0) as u64))
        }),
{
    let tail = end + seq![' '] + rest;
    let line = start + seq!['-'] + tail;
    lemma_vdso_line(before, line, after);
    assert(!tail.contains('-')) by {
        assert forall|i: int| 0 <= i < tail.len() implies tail[i] != '-' by {
            if i < end.len() {
                assert(end.contains(end[i]));
            } else if i > end.len() {
                assert(rest.contains(rest[i - end.len() - 1]));
            }
        }
    }
    text::law_separators_split(start, '-', tail);
    text::law_separators_split(tail, '-', tail);
    let parts = text::split_at_char(line, '-');
    assert(parts =~= seq![start, tail]);
    text::law_white_space_separates_words(end, ' ', rest);
    assert(text::words(tail)[0] == end);
}

/// What is said when the instruction cannot be found: which file or step failed, and how.
pub proof fn law_search_failures_are_described(e: String, pid: u32)
    ensures
        text::contains_text(VdsoError::ReadMaps(e).spec_message(), e@),
        text::contains_text(VdsoError::Seek(e).spec_message(), e@),
        text::contains_text(VdsoError::Read(e).spec_message(), e@),
        text::contains_text((VdsoError::OpenMem { pid, detail: e }).spec_message(), e@),
        text::contains_text(
            (VdsoError::OpenMem { pid, detail: e }).spec_message(),
            text::decimal(pid as nat),
        ),
{
    lemma_tail("read maps: "@, e@);
    lemma_tail("seek: "@, e@);
    lemma_tail("read vdso: "@, e@);
    let head = "open /proc/"@;
    let number = text::decimal(pid as nat);
    let mid = "/mem: "@;
    let all = (VdsoError::OpenMem { pid, detail: e }).spec_message();
    assert(text::contains_text(all, e@)) by {
        lemma_tail(head + number + mid, e@);
    }
    assert(text::contains_text(all, number)) by {
        let behind = mid + e@;
        text::lemma_contains(head, number, behind);
        assert(head + number + behind =~= all);
    }
}

proof fn lemma_tail(head: Seq<char>, tail: Seq<char>)
    ensures
        text::contains_text(head + tail, tail),
{
    let none = Seq::<char>::empty();
    text::lemma_contains(head, tail, none);
    assert(head + tail + none =~= head + tail);
}

/// What is said of a map or an image in which the instruction cannot be found.
pub proof fn law_search_results_are_described()
    ensures
        text::contains_text(VdsoError::NoMapping.spec_message(), "no [vdso] mapping"@),
        text::contains_text(VdsoError::BadStart.spec_message(), "bad vdso start"@),
        text::contains_text(VdsoError::BadEnd.spec_message(), "bad vdso end"@),
        text::contains_text(VdsoError::EndBeforeStart.spec_message(), "vdso end before start"@),
        text::contains_text(VdsoError::TooLarge.spec_message(), "vdso size too large"@),
        text::contains_text(
            VdsoError::NoInstruction.spec_message(),
            "no syscall instruction in vdso"@,
        ),
{
    let none = Seq::<char>::empty();
    reveal_strlit("no [vdso] mapping found");
    reveal_strlit("no [vdso] mapping");
    reveal_strlit(" found");
    text::lemma_contains(none, "no [vdso] mapping"@, " found"@);
    assert(none + "no [vdso] mapping"@ + " found"@ =~= "no [vdso] mapping found"@);
    lemma_whole("bad vdso start"@);
    lemma_whole("bad vdso end"@);
    lemma_whole("vdso end before start"@);
    lemma_whole("vdso size too large"@);
    lemma_whole("no syscall instruction in vdso"@);
}

proof fn lemma_whole(s: Seq<char>)
    ensures
        text::contains_text(s, s),
{
    lemma_tail(Seq::empty(), s);
    assert(Seq::<char>::empty() + s =~= s);
}

} // verus!
