use animaksm::ptrace::{
    call_result, find_syscall_in_vdso, locate_vdso, madvise_via_ptrace, Injection, PtraceOp,
    PtraceReply, Registers, Stage, VdsoRead, WaitKind,
};

fn regs(rax: u64) -> Registers {
    Registers {
        r15: 15,
        r14: 14,
        r13: 13,
        r12: 12,
        rbp: 11,
        rbx: 10,
        r11: 9,
        r10: 8,
        r9: 7,
        r8: 6,
        rax,
        rcx: 5,
        rdx: 4,
        rsi: 3,
        rdi: 2,
        orig_rax: 1,
        rip: 0x4000,
        cs: 0x33,
        eflags: 0x246,
        rsp: 0x7ffe,
        ss: 0x2b,
        fs_base: 21,
        gs_base: 22,
        ds: 23,
        es: 24,
        fs: 25,
        gs: 26,
    }
}

fn stopped(trap: bool) -> PtraceReply {
    PtraceReply::Waited {
        kind: WaitKind::Stopped { trap },
        detail: format!("Stopped(trap: {trap})"),
    }
}

/// The replies of a target on which everything works.
fn good_replies() -> Vec<PtraceReply> {
    vec![
        PtraceReply::Done,
        stopped(false),
        PtraceReply::Regs(regs(77)),
        PtraceReply::Done,
        PtraceReply::Done,
        stopped(true),
        PtraceReply::Done,
        stopped(true),
        PtraceReply::Regs(regs(0)),
        PtraceReply::Done,
        PtraceReply::Done,
    ]
}

/// Runs an injection on the given replies; what follows them works. Gives the
/// operations and the outcome.
fn run(replies: Vec<PtraceReply>) -> (Vec<PtraceOp>, Result<(), String>) {
    let mut replies = replies.into_iter();
    let mut injection: Injection = madvise_via_ptrace(0x10000, 0x2000, 0x7fff_1000);
    let mut ops = Vec::new();
    while let Some(op) = injection.op() {
        ops.push(op);
        assert!(ops.len() < 20, "the injection does not end");
        injection = injection.advance(replies.next().unwrap_or(PtraceReply::Done));
    }
    match injection.stage {
        Stage::Finished(result) => (ops, result.map_err(|e| e.message())),
        _ => panic!("an operation is missing"),
    }
}

#[test]
fn an_injection_makes_the_call_and_restores_the_registers() {
    let (ops, result) = run(good_replies());
    assert_eq!(result, Ok(()));
    let call = Registers {
        rip: 0x7fff_1000,
        rax: 28,
        rdi: 0x10000,
        rsi: 0x2000,
        rdx: 12,
        ..regs(77)
    };
    assert_eq!(
        ops,
        vec![
            PtraceOp::Attach,
            PtraceOp::Wait,
            PtraceOp::GetRegs,
            PtraceOp::SetRegs(call),
            PtraceOp::Syscall,
            PtraceOp::Wait,
            PtraceOp::Syscall,
            PtraceOp::Wait,
            PtraceOp::GetRegs,
            PtraceOp::SetRegs(regs(77)),
            PtraceOp::Detach,
        ]
    );
}

#[test]
fn every_failure_has_its_message() {
    let messages = [
        "ptrace attach failed: E",
        "waitpid failed: E",
        "getregs failed: E",
        "setregs failed: E",
        "ptrace syscall (entry) failed: E",
        "waitpid at syscall entry failed: E",
        "ptrace syscall (exit) failed: E",
        "waitpid at syscall exit failed: E",
        "getregs after syscall failed: E",
        "failed to restore registers after ptrace injection: E",
        "ptrace detach failed: E",
    ];
    for (i, message) in messages.iter().enumerate() {
        let mut replies = good_replies();
        replies.truncate(i);
        replies.push(PtraceReply::Failed("E".to_string()));
        let (ops, result) = run(replies);
        assert_eq!(result, Err(message.to_string()));
        if i > 0 {
            assert_eq!(ops[ops.len() - 1], PtraceOp::Detach, "step {i}");
        }
        if i > 3 {
            assert!(ops.contains(&PtraceOp::SetRegs(regs(77))), "step {i}");
        }
    }
}

#[test]
fn the_target_may_be_gone() {
    let mut replies = good_replies();
    replies.truncate(1);
    replies.push(PtraceReply::Waited {
        kind: WaitKind::Exited { pid: 42, code: -1 },
        detail: String::new(),
    });
    let (_, result) = run(replies);
    assert_eq!(
        result,
        Err("target process 42 exited with code -1".to_string())
    );
    let (_, result) = run(vec![
        PtraceReply::Done,
        PtraceReply::Waited {
            kind: WaitKind::Other,
            detail: "StillAlive".to_string(),
        },
    ]);
    assert_eq!(
        result,
        Err("unexpected wait status: StillAlive".to_string())
    );
}

#[test]
fn only_a_trap_ends_a_syscall_stop() {
    for (at, message) in [
        (5, "unexpected wait at syscall entry: Stopped(trap: false)"),
        (7, "unexpected wait at syscall exit: Stopped(trap: false)"),
    ] {
        let mut replies = good_replies();
        replies.truncate(at);
        replies.push(stopped(false));
        let (ops, result) = run(replies);
        assert_eq!(result, Err(message.to_string()));
        assert_eq!(
            ops[ops.len() - 2..],
            [PtraceOp::SetRegs(regs(77)), PtraceOp::Detach]
        );
    }
}

#[test]
fn the_result_of_the_call_is_reported() {
    let mut replies = good_replies();
    replies[8] = PtraceReply::Regs(regs((-22i64) as u64));
    let (ops, result) = run(replies);
    assert_eq!(ops.len(), 11);
    let message = result.unwrap_err();
    assert!(message.starts_with("madvise failed: "));
    assert!(message.contains("EINVAL"));
    assert!(call_result(0).is_ok());
    assert!(call_result(0xffff_ffff_ffff_f000).is_ok());
    assert!(call_result(0xffff_ffff_ffff_f001).is_err());
}

const MAPS: &str = "5500-5600 r-xp 0 08:01 1 /bin/x\n\
                    7ffe0000-7ffe2000 r-xp 0 00:00 0 [vdso]\n";

#[test]
fn the_vdso_is_found_in_the_maps() {
    assert_eq!(
        locate_vdso(Ok(MAPS.to_string())).unwrap(),
        (0x7ffe0000, 0x2000)
    );
    let message = |maps: &str| locate_vdso(Ok(maps.to_string())).unwrap_err().message();
    assert_eq!(message("5500-5600 r-xp /bin/x\n"), "no [vdso] mapping found");
    assert_eq!(message("zz-10 r-xp [vdso]"), "bad vdso start");
    assert_eq!(message("10-zz r-xp [vdso]"), "bad vdso end");
    assert_eq!(message("20-10 r-xp [vdso]"), "vdso end before start");
    assert_eq!(message("0-a00001 r-xp [vdso]"), "vdso size too large");
    assert_eq!(
        locate_vdso(Err("gone".to_string())).unwrap_err().message(),
        "read maps: gone"
    );
}

#[test]
fn the_first_syscall_instruction_is_used() {
    let bytes = vec![0x0f, 0x01, 0x0f, 0x05, 0x0f, 0x05];
    assert_eq!(
        find_syscall_in_vdso(1, 0x1000, VdsoRead::Bytes(bytes)).unwrap(),
        0x1002
    );
    let message = |read: VdsoRead| find_syscall_in_vdso(7, 0, read).unwrap_err().message();
    assert_eq!(
        message(VdsoRead::Bytes(vec![0x05, 0x0f])),
        "no syscall instruction in vdso"
    );
    assert_eq!(
        message(VdsoRead::OpenFailed("e".to_string())),
        "open /proc/7/mem: e"
    );
    assert_eq!(message(VdsoRead::SeekFailed("e".to_string())), "seek: e");
    assert_eq!(message(VdsoRead::ReadFailed("e".to_string())), "read vdso: e");
}
