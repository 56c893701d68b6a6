//! Unified error type of the daemon.

use vstd::prelude::*;
use vstd::string::StringExecFns;

use crate::text;
use crate::text::decimal_text;

verus! {

/// All errors that can occur in the daemon. Errors of the operating system are
/// carried as their descriptions.
#[derive(Debug, Clone)]
pub enum ZramdedupError {
    Sysfs { path: String, source: String },
    Procfs { pid: u32, detail: String },
    Config(String),
    Ptrace { pid: u32, source: String },
    Injection { pid: u32, detail: String },
    SwapProxy { detail: String },
    Snapshot(String),
    Capability(String),
    Io(String),
    Nix(String),
}

impl ZramdedupError {
    pub open spec fn spec_message(self) -> Seq<char> {
        match self {
            ZramdedupError::Sysfs { path, source } => "sysfs I/O error on "@ + path@ + ": "@
                + source@,
            ZramdedupError::Procfs { pid, detail } => "procfs parse error for PID "@
                + text::decimal(pid as nat) + ": "@ + detail@,
            ZramdedupError::Config(detail) => "configuration error: "@ + detail@,
            ZramdedupError::Ptrace { pid, source } => "ptrace error for PID "@ + text::decimal(
                pid as nat,
            ) + ": "@ + source@,
            ZramdedupError::Injection { pid, detail } => "syscall injection failed for PID "@
                + text::decimal(pid as nat) + ": "@ + detail@,
            ZramdedupError::SwapProxy { detail } => "swap proxy error: "@ + detail@,
            ZramdedupError::Snapshot(detail) => "KSM snapshot error: "@ + detail@,
            ZramdedupError::Capability(detail) => "capability error: "@ + detail@,
            ZramdedupError::Io(detail) => "I/O error: "@ + detail@,
            ZramdedupError::Nix(detail) => "nix error: "@ + detail@,
        }
    }

    /// The message shown to the user.
    pub fn message(&self) -> (r: String)
        ensures
            r@ == self.spec_message(),
    {
        match self {
            ZramdedupError::Sysfs { path, source } => {
                let mut out = String::from_str("sysfs I/O error on ");
                out.append(path.as_str());
                out.append(": ");
                out.append(source.as_str());
                out
            },
            ZramdedupError::Procfs { pid, detail } => {
                about_pid("procfs parse error for PID ", *pid, detail.as_str())
            },
            ZramdedupError::Config(detail) => text::concat("configuration error: ", detail.as_str()),
            ZramdedupError::Ptrace { pid, source } => {
                about_pid("ptrace error for PID ", *pid, source.as_str())
            },
            ZramdedupError::Injection { pid, detail } => {
                about_pid("syscall injection failed for PID ", *pid, detail.as_str())
            },
            ZramdedupError::SwapProxy { detail } => text::concat(
                "swap proxy error: ",
                detail.as_str(),
            ),
            ZramdedupError::Snapshot(detail) => text::concat(
                "KSM snapshot error: ",
                detail.as_str(),
            ),
            ZramdedupError::Capability(detail) => text::concat(
                "capability error: ",
                detail.as_str(),
            ),
            ZramdedupError::Io(detail) => text::concat("I/O error: ", detail.as_str()),
            ZramdedupError::Nix(detail) => text::concat("nix error: ", detail.as_str()),
        }
    }
}

fn about_pid(what: &str, pid: u32, detail: &str) -> (r: String)
    ensures
        r@ == what@ + text::decimal(pid as nat) + ": "@ + detail@,
{
    let mut out = String::from_str(what);
    out.append(decimal_text(pid as u64).as_str());
    out.append(": ");
    out.append(detail);
    out
}

// ---------------------------------------------------------------------------
// Laws
// ---------------------------------------------------------------------------

/// The message of an error says what went wrong and where: it begins with the kind of the
/// error and holds the process or the path and the description.
pub proof fn law_messages_say_what_went_wrong(e: ZramdedupError)
    ensures
        match e {
            ZramdedupError::Sysfs { path, source } => {
                &&& text::has_prefix(e.spec_message(), "sysfs I/O error on "@)
                &&& text::contains_text(e.spec_message(), path@)
                &&& text::contains_text(e.spec_message(), source@)
            },
            ZramdedupError::Procfs { pid, detail } => {
                &&& text::has_prefix(e.spec_message(), "procfs parse error for PID "@)
                &&& text::contains_text(e.spec_message(), text::decimal(pid as nat))
                &&& text::contains_text(e.spec_message(), detail@)
            },
            ZramdedupError::Config(detail) => {
                &&& text::has_prefix(e.spec_message(), "configuration error: "@)
                &&& text::contains_text(e.spec_message(), detail@)
            },
            ZramdedupError::Ptrace { pid, source } => {
                &&& text::has_prefix(e.spec_message(), "ptrace error for PID "@)
                &&& text::contains_text(e.spec_message(), text::decimal(pid as nat))
                &&& text::contains_text(e.spec_message(), source@)
            },
            ZramdedupError::Injection { pid, detail } => {
                &&& text::has_prefix(e.spec_message(), "syscall injection failed for PID "@)
                &&& text::contains_text(e.spec_message(), text::decimal(pid as nat))
                &&& text::contains_text(e.spec_message(), detail@)
            },
            ZramdedupError::SwapProxy { detail } => {
                &&& text::has_prefix(e.spec_message(), "swap proxy error: "@)
                &&& text::contains_text(e.spec_message(), detail@)
            },
            ZramdedupError::Snapshot(detail) => {
                &&& text::has_prefix(e.spec_message(), "KSM snapshot error: "@)
                &&& text::contains_text(e.spec_message(), detail@)
            },
            ZramdedupError::Capability(detail) => {
                &&& text::has_prefix(e.spec_message(), "capability error: "@)
                &&& text::contains_text(e.spec_message(), detail@)
            },
            ZramdedupError::Io(detail) => {
                &&& text::has_prefix(e.spec_message(), "I/O error: "@)
                &&& text::contains_text(e.spec_message(), detail@)
            },
            ZramdedupError::Nix(detail) => {
                &&& text::has_prefix(e.spec_message(), "nix error: "@)
                &&& text::contains_text(e.spec_message(), detail@)
            },
        },
{
    match e {
        ZramdedupError::Sysfs { path, source } => {
            let head = "sysfs I/O error on "@;
            lemma_parts(head, path@, ": "@, source@);
        },
        ZramdedupError::Procfs { pid, detail } => {
            let head = "procfs parse error for PID "@;
            lemma_parts(head, text::decimal(pid as nat), ": "@, detail@);
        },
        ZramdedupError::Config(detail) => {
            let head = "configuration error: "@;
            lemma_head_and_tail(head, detail@);
        },
        ZramdedupError::Ptrace { pid, source } => {
            let head = "ptrace error for PID "@;
            lemma_parts(head, text::decimal(pid as nat), ": "@, source@);
        },
        ZramdedupError::Injection { pid, detail } => {
            let head = "syscall injection failed for PID "@;
            lemma_parts(head, text::decimal(pid as nat), ": "@, detail@);
        },
        ZramdedupError::SwapProxy { detail } => {
            let head = "swap proxy error: "@;
            lemma_head_and_tail(head, detail@);
        },
        ZramdedupError::Snapshot(detail) => {
            let head = "KSM snapshot error: "@;
            lemma_head_and_tail(head, detail@);
        },
        ZramdedupError::Capability(detail) => {
            let head = "capability error: "@;
            lemma_head_and_tail(head, detail@);
        },
        ZramdedupError::Io(detail) => {
            let head = "I/O error: "@;
            lemma_head_and_tail(head, detail@);
        },
        ZramdedupError::Nix(detail) => {
            let head = "nix error: "@;
            lemma_head_and_tail(head, detail@);
        },
    }
}

proof fn lemma_head_and_tail(head: Seq<char>, tail: Seq<char>)
    ensures
        text::has_prefix(head + tail, head),
        text::contains_text(head + tail, tail),
{
    let none = Seq::<char>::empty();
    assert((head + tail).subrange(0, head.len() as int) =~= head);
    assert(head + tail + none =~= head + tail);
    text::lemma_contains(head, tail, none);
}

proof fn lemma_parts(head: Seq<char>, what: Seq<char>, sep: Seq<char>, tail: Seq<char>)
    ensures
        text::has_prefix(head + what + sep + tail, head),
        text::contains_text(head + what + sep + tail, what),
        text::contains_text(head + what + sep + tail, tail),
{
    let all = head + what + sep + tail;
    let after = what + sep + tail;
    let behind = sep + tail;
    assert(head + after =~= all);
    assert(head + what + behind =~= all);
    assert(text::has_prefix(all, head)) by {
        lemma_head_and_tail(head, after);
    }
    assert(text::contains_text(all, what)) by {
        text::lemma_contains(head, what, behind);
    }
    assert(text::contains_text(all, tail)) by {
        lemma_head_and_tail(head + what + sep, tail);
    }
}

} // verus!
