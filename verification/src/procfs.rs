//! Procfs utilities for process discovery and memory analysis.
//!
//! Parses what the caller read from /proc: process lists, memory maps,
//! KSM statistics and page maps.

use vstd::prelude::*;
use vstd::string::StringExecFns;

use crate::error::ZramdedupError;
use crate::fingerprint;
use crate::text;
use crate::text::{
    chars_of, decimal_text, has_char, join_from, parse_hex_u64, parse_i64, parse_u32, parse_u64,
    spells, split_char, split_lines, split_words, starts_with, string_of, strip_prefix,
    strip_suffixes, text_contains, trim, trim_text,
};

verus! {

/// Size of a page of process memory.
pub const PAGE_BYTES: u64 = 4096;

/// Process memory status from /proc/PID/status.
#[derive(Debug, Clone)]
pub struct ProcessStatus {
    pub pid: u32,
    pub name: String,
    pub vm_rss_kb: u64,
    pub vm_anon_kb: u64,
    pub vm_swap_kb: u64,
}

/// The contents of a process status.
#[verifier::ext_equal]
pub struct ProcessStatusView {
    pub pid: u32,
    pub name: Seq<char>,
    pub vm_rss_kb: u64,
    pub vm_anon_kb: u64,
    pub vm_swap_kb: u64,
}

impl View for ProcessStatus {
    type V = ProcessStatusView;

    open spec fn view(&self) -> ProcessStatusView {
        ProcessStatusView {
            pid: self.pid,
            name: self.name@,
            vm_rss_kb: self.vm_rss_kb,
            vm_anon_kb: self.vm_anon_kb,
            vm_swap_kb: self.vm_swap_kb,
        }
    }
}

impl Default for ProcessStatus {
    fn default() -> (r: Self)
        ensures
            r@ == ProcessStatusView::empty(0),
    {
        ProcessStatus {
            pid: 0,
            name: String::from_str(""),
            vm_rss_kb: 0,
            vm_anon_kb: 0,
            vm_swap_kb: 0,
        }
    }
}

/// A single entry from /proc/PID/maps.
#[derive(Debug, Clone)]
pub struct MapsEntry {
    pub start: u64,
    pub end: u64,
    pub perms: String,
    pub offset: u64,
    pub dev: String,
    pub inode: u64,
    pub pathname: String,
}

/// The contents of a maps entry.
#[verifier::ext_equal]
pub struct MapsEntryView {
    pub start: u64,
    pub end: u64,
    pub perms: Seq<char>,
    pub offset: u64,
    pub dev: Seq<char>,
    pub inode: u64,
    pub pathname: Seq<char>,
}

impl View for MapsEntry {
    type V = MapsEntryView;

    open spec fn view(&self) -> MapsEntryView {
        MapsEntryView {
            start: self.start,
            end: self.end,
            perms: self.perms@,
            offset: self.offset,
            dev: self.dev@,
            inode: self.inode,
            pathname: self.pathname@,
        }
    }
}

impl MapsEntryView {
    /// Whether the range is not turned around.
    pub open spec fn is_ordered(self) -> bool {
        self.start <= self.end
    }

    pub open spec fn spec_size(self) -> int {
        self.end - self.start
    }

    pub open spec fn spec_is_anon_rw(self) -> bool {
        &&& text::contains_text(self.perms, "rw"@)
        &&& !self.perms.contains('s')
        &&& self.pathname.len() == 0
        &&& self.inode == 0
    }

    pub open spec fn spec_has_exec(self) -> bool {
        self.perms.contains('x')
    }

    pub open spec fn spec_is_special(self) -> bool {
        ||| text::has_prefix(self.pathname, "[vdso]"@)
        ||| text::has_prefix(self.pathname, "[vvar"@)
        ||| text::has_prefix(self.pathname, "[vsyscall]"@)
        ||| text::has_prefix(self.pathname, "[stack"@)
        ||| text::has_prefix(self.pathname, "[heap]"@)
    }
}

impl MapsEntry {
    /// Size of this mapping in bytes.
    pub fn size(&self) -> (r: u64)
        requires
            self.start <= self.end,
        ensures
            r == self@.spec_size(),
    {
        self.end - self.start
    }

    /// Number of whole pages in this mapping.
    pub fn page_count(&self) -> (r: u64)
        requires
            self.start <= self.end,
        ensures
            r == self@.spec_size() / 4096,
    {
        self.size() / PAGE_BYTES
    }

    /// Whether this is an anonymous read-write private mapping (KSM candidate).
    pub fn is_anon_rw(&self) -> (r: bool)
        ensures
            r == self@.spec_is_anon_rw(),
    {
        let perms = chars_of(self.perms.as_str());
        let pathname = chars_of(self.pathname.as_str());
        text_contains(self.perms.as_str(), "rw") && !has_char(perms.as_slice(), 's')
            && pathname.len() == 0 && self.inode == 0
    }

    /// Whether this mapping has execute permission (should be skipped).
    pub fn has_exec(&self) -> (r: bool)
        ensures
            r == self@.spec_has_exec(),
    {
        let perms = chars_of(self.perms.as_str());
        has_char(perms.as_slice(), 'x')
    }

    /// Whether this is a special mapping (vdso, vvar, vsyscall, stack, heap).
    pub fn is_special(&self) -> (r: bool)
        ensures
            r == self@.spec_is_special(),
    {
        let pathname = chars_of(self.pathname.as_str());
        let p = pathname.as_slice();
        starts_with(p, "[vdso]") || starts_with(p, "[vvar") || starts_with(p, "[vsyscall]")
            || starts_with(p, "[stack") || starts_with(p, "[heap]")
    }
}

/// Per-process KSM statistics from /proc/PID/ksm_stat.
#[derive(Debug, Clone, Copy, PartialEq, Eq, Structural)]
pub struct KsmProcStat {
    pub rmap_items: u64,
    pub merging_pages: u64,
    pub process_profit: i64,
    pub merge_any: bool,
    pub mergeable: bool,
}

impl KsmProcStat {
    pub open spec fn empty() -> KsmProcStat {
        KsmProcStat {
            rmap_items: 0,
            merging_pages: 0,
            process_profit: 0,
            merge_any: false,
            mergeable: false,
        }
    }
}

impl Default for KsmProcStat {
    fn default() -> (r: Self)
        ensures
            r == KsmProcStat::empty(),
    {
        KsmProcStat {
            rmap_items: 0,
            merging_pages: 0,
            process_profit: 0,
            merge_any: false,
            mergeable: false,
        }
    }
}

/// An anonymous memory region scored for KSM merge potential.
#[derive(Debug, Clone)]
pub struct MergeCandidate {
    pub pid: u32,
    pub process_name: String,
    pub start: u64,
    pub end: u64,
    pub size_bytes: u64,
    pub anon_rss_kb: u64,
}

// ---------------------------------------------------------------------------
// Errors
// ---------------------------------------------------------------------------

/// Whether an error is the given complaint about a process.
pub open spec fn is_proc_error(e: ZramdedupError, pid: u32, detail: Seq<char>) -> bool {
    e matches ZramdedupError::Procfs { pid: p, detail: d } && p == pid && d@ == detail
}

/// The path of a file below /proc/PID.
pub open spec fn spec_proc_path(pid: u32, file: Seq<char>) -> Seq<char> {
    "/proc/"@ + text::decimal(pid as nat) + "/"@ + file
}

/// The path of a file below /proc/PID.
pub fn proc_path(pid: u32, file: &str) -> (r: String)
    ensures
        r@ == spec_proc_path(pid, file@),
{
    let mut path = String::from_str("/proc/");
    path.append(decimal_text(pid as u64).as_str());
    path.append("/");
    path.append(file);
    path
}

/// The complaint that something could not be done to a path.
pub open spec fn complaint(what: Seq<char>, path: Seq<char>, e: Seq<char>) -> Seq<char> {
    what + path + ": "@ + e
}

fn failed(pid: u32, what: &str, path: &str, e: &str) -> (r: ZramdedupError)
    ensures
        is_proc_error(r, pid, complaint(what@, path@, e@)),
{
    let mut detail = String::from_str(what);
    detail.append(path);
    detail.append(": ");
    detail.append(e);
    ZramdedupError::Procfs { pid, detail }
}

// ---------------------------------------------------------------------------
// Process list
// ---------------------------------------------------------------------------

/// The texts that are process numbers, in order.
pub open spec fn pids_in(names: Seq<Seq<char>>) -> Seq<u32>
    decreases names.len(),
{
    if names.len() == 0 {
        Seq::empty()
    } else {
        let before = pids_in(names.drop_last());
        match text::as_u32(text::unsigned_value(names.last(), 10)) {
            Some(pid) => before.push(pid),
            None => before,
        }
    }
}

/// All PIDs in /proc: the directory entries whose names are numbers.
pub fn list_pids(names: Result<Vec<String>, String>) -> (r: Result<Vec<u32>, ZramdedupError>)
    ensures
        match (names, r) {
            (Ok(names), Ok(pids)) => pids@ == pids_in(text::strings(names@)),
            (Err(e), Err(error)) => is_proc_error(
                error,
                0,
                complaint("cannot read "@, "/proc"@, e@),
            ),
            _ => false,
        },
{
    let names = match names {
        Ok(names) => names,
        Err(e) => {
            return Err(failed(0, "cannot read ", "/proc", e.as_str()));
        },
    };
    let mut pids: Vec<u32> = Vec::new();
    let ghost all = text::strings(names@);
    let mut i: usize = 0;
    assert(all.take(0) =~= Seq::<Seq<char>>::empty());
    while i < names.len()
        invariant
            i <= names.len(),
            all == text::strings(names@),
            pids@ == pids_in(all.take(i as int)),
        decreases names.len() - i,
    {
        assert(all.take(i + 1).drop_last() =~= all.take(i as int));
        let name = chars_of(names[i].as_str());
        assert(all.take(i + 1).last() == name@);
        if let Some(pid) = parse_u32(name.as_slice()) {
            pids.push(pid);
        }
        i += 1;
    }
    assert(all.take(i as int) =~= all);
    Ok(pids)
}

/// `parts` with each text trimmed.
pub open spec fn all_trimmed(parts: Seq<Seq<char>>) -> Seq<Seq<char>> {
    parts.map_values(|p: Seq<char>| text::trimmed(p))
}

/// The path of the process list of a cgroup.
pub open spec fn cgroup_procs_path(cgroup: Seq<char>) -> Seq<char> {
    cgroup + "/cgroup.procs"@
}

/// The PIDs that belong to a cgroup (cgroup v2), from its list of processes.
pub fn read_cgroup_procs(cgroup_path: &str, content: Result<String, String>) -> (r: Result<
    Vec<u32>,
    ZramdedupError,
>)
    ensures
        match (content, r) {
            (Ok(content), Ok(pids)) => pids@ == pids_in(all_trimmed(text::lines(content@))),
            (Err(e), Err(error)) => is_proc_error(
                error,
                0,
                complaint("cannot read "@, cgroup_procs_path(cgroup_path@), e@),
            ),
            _ => false,
        },
{
    let content = match content {
        Ok(content) => content,
        Err(e) => {
            let path = text::concat(cgroup_path, "/cgroup.procs");
            return Err(failed(0, "cannot read ", path.as_str(), e.as_str()));
        },
    };
    let chars = chars_of(content.as_str());
    let lines = split_lines(chars.as_slice());
    let mut pids: Vec<u32> = Vec::new();
    let ghost all = all_trimmed(text::views(lines@));
    let mut i: usize = 0;
    assert(all.take(0) =~= Seq::<Seq<char>>::empty());
    while i < lines.len()
        invariant
            i <= lines.len(),
            all == all_trimmed(text::views(lines@)),
            pids@ == pids_in(all.take(i as int)),
        decreases lines.len() - i,
    {
        assert(all.take(i + 1).drop_last() =~= all.take(i as int));
        let line = trim(lines[i]);
        assert(all.take(i + 1).last() == line@);
        if let Some(pid) = parse_u32(line) {
            pids.push(pid);
        }
        i += 1;
    }
    assert(all.take(i as int) =~= all);
    Ok(pids)
}

// ---------------------------------------------------------------------------
// Process status
// ---------------------------------------------------------------------------

/// The number in a value such as "  12345 kB"; zero if there is none.
pub open spec fn kb_value(s: Seq<char>) -> u64 {
    let digits = text::trimmed(text::without_suffixes(text::trimmed(s), " kB"@));
    text::value_or(text::as_u64(text::unsigned_value(digits, 10)), 0)
}

/// The number in a value such as "  12345 kB"; zero if there is none.
pub fn kb_value_of(s: &[char]) -> (r: u64)
    ensures
        r == kb_value(s@),
{
    match parse_u64(trim(strip_suffixes(trim(s), " kB"))) {
        Some(n) => n,
        None => 0,
    }
}

/// The number in a value such as "  12345 kB"; zero if there is none.
pub fn parse_kb_value(s: &str) -> (r: u64)
    ensures
        r == kb_value(s@),
{
    let chars = chars_of(s);
    kb_value_of(chars.as_slice())
}

impl ProcessStatusView {
    /// The status of a process of which nothing is known yet.
    pub open spec fn empty(pid: u32) -> ProcessStatusView {
        ProcessStatusView { pid, name: ""@, vm_rss_kb: 0, vm_anon_kb: 0, vm_swap_kb: 0 }
    }

    /// The status after one line was read.
    pub open spec fn with_line(self, line: Seq<char>) -> ProcessStatusView {
        match text::after_prefix(line, "Name:"@) {
            Some(value) => ProcessStatusView { name: text::trimmed(value), ..self },
            None => match text::after_prefix(line, "VmRSS:"@) {
                Some(value) => ProcessStatusView { vm_rss_kb: kb_value(value), ..self },
                None => match text::after_prefix(line, "VmAnon:"@) {
                    Some(value) => ProcessStatusView { vm_anon_kb: kb_value(value), ..self },
                    None => match text::after_prefix(line, "VmSwap:"@) {
                        Some(value) => ProcessStatusView { vm_swap_kb: kb_value(value), ..self },
                        None => self,
                    },
                },
            },
        }
    }

    /// The status after all lines were read, in order.
    pub open spec fn of_lines(pid: u32, lines: Seq<Seq<char>>) -> ProcessStatusView
        decreases lines.len(),
    {
        if lines.len() == 0 {
            ProcessStatusView::empty(pid)
        } else {
            ProcessStatusView::of_lines(pid, lines.drop_last()).with_line(lines.last())
        }
    }
}

/// Process status (VmRSS, VmAnon, etc.) from what reading /proc/PID/status gave.
pub fn read_process_status(pid: u32, content: Result<String, String>) -> (r: Result<
    ProcessStatus,
    ZramdedupError,
>)
    ensures
        match (content, r) {
            (Ok(content), Ok(status)) => status@ == ProcessStatusView::of_lines(
                pid,
                text::lines(content@),
            ),
            (Err(e), Err(error)) => is_proc_error(
                error,
                pid,
                complaint("cannot read "@, spec_proc_path(pid, "status"@), e@),
            ),
            _ => false,
        },
{
    let content = match content {
        Ok(content) => content,
        Err(e) => {
            let path = proc_path(pid, "status");
            return Err(failed(pid, "cannot read ", path.as_str(), e.as_str()));
        },
    };
    let chars = chars_of(content.as_str());
    let lines = split_lines(chars.as_slice());
    let mut status = ProcessStatus {
        pid,
        name: String::from_str(""),
        vm_rss_kb: 0,
        vm_anon_kb: 0,
        vm_swap_kb: 0,
    };
    let ghost all = text::views(lines@);
    let mut i: usize = 0;
    assert(all.take(0) =~= Seq::<Seq<char>>::empty());
    while i < lines.len()
        invariant
            i <= lines.len(),
            all == text::views(lines@),
            status@ == ProcessStatusView::of_lines(pid, all.take(i as int)),
        decreases lines.len() - i,
    {
        let line = lines[i];
        assert(all.take(i + 1).drop_last() =~= all.take(i as int));
        assert(all.take(i + 1).last() == line@);
        if let Some(value) = strip_prefix(line, "Name:") {
            status.name = string_of(trim(value));
        } else if let Some(value) = strip_prefix(line, "VmRSS:") {
            status.vm_rss_kb = kb_value_of(value);
        } else if let Some(value) = strip_prefix(line, "VmAnon:") {
            status.vm_anon_kb = kb_value_of(value);
        } else if let Some(value) = strip_prefix(line, "VmSwap:") {
            status.vm_swap_kb = kb_value_of(value);
        }
        i += 1;
    }
    assert(all.take(i as int) =~= all);
    Ok(status)
}

/// The comm (short name) of a process, from what reading /proc/PID/comm gave.
pub fn read_process_comm(pid: u32, content: Result<String, String>) -> (r: Result<
    String,
    ZramdedupError,
>)
    ensures
        match (content, r) {
            (Ok(content), Ok(name)) => name@ == text::trimmed(content@),
            (Err(e), Err(error)) => is_proc_error(
                error,
                pid,
                complaint("cannot read "@, spec_proc_path(pid, "comm"@), e@),
            ),
            _ => false,
        },
{
    match content {
        Ok(content) => Ok(trim_text(content.as_str())),
        Err(e) => {
            let path = proc_path(pid, "comm");
            Err(failed(pid, "cannot read ", path.as_str(), e.as_str()))
        },
    }
}

/// Whether a process name holds any of the patterns.
pub open spec fn spec_is_blocklisted(name: Seq<char>, blocklist: Seq<Seq<char>>) -> bool {
    exists|i: int|
        0 <= i < blocklist.len() && text::contains_text(name, #[trigger] blocklist[i])
}

/// Check if a process name matches any pattern in the blocklist.
pub fn is_blocklisted(name: &str, blocklist: &Vec<String>) -> (r: bool)
    ensures
        r == spec_is_blocklisted(name@, text::strings(blocklist@)),
        r <==> exists|i: int|
            0 <= i < blocklist@.len() && text::contains_text(
                name@,
                (#[trigger] blocklist@[i])@,
            ),
{
    let mut i: usize = 0;
    while i < blocklist.len()
        invariant
            i <= blocklist.len(),
            forall|k: int|
                0 <= k < i ==> !text::contains_text(name@, #[trigger] text::strings(blocklist@)[k]),
            forall|k: int| 0 <= k < i ==> !text::contains_text(name@, (#[trigger] blocklist@[k])@),
        decreases blocklist.len() - i,
    {
        assert(text::strings(blocklist@)[i as int] == blocklist@[i as int]@);
        if text_contains(name, blocklist[i].as_str()) {
            return true;
        }
        i += 1;
    }
    false
}

// ---------------------------------------------------------------------------
// Memory maps
// ---------------------------------------------------------------------------

/// The address range of a maps line, "start-end" in hexadecimal.
pub open spec fn range_in(s: Seq<char>) -> Option<(u64, u64)> {
    let parts = text::split_at_char(s, '-');
    if parts.len() != 2 {
        None
    } else {
        match (
            text::as_u64(text::unsigned_value(parts[0], 16)),
            text::as_u64(text::unsigned_value(parts[1], 16)),
        ) {
            (Some(start), Some(end)) => Some((start, end)),
            _ => None,
        }
    }
}

/// The entry that a maps line gives. A line needs five fields; what follows them
/// is the path.
pub open spec fn maps_entry_in(line: Seq<char>) -> Option<MapsEntryView> {
    let parts = text::words(line);
    if parts.len() < 5 {
        None
    } else {
        match range_in(parts[0]) {
            None => None,
            Some((start, end)) => Some(
                MapsEntryView {
                    start,
                    end,
                    perms: parts[1],
                    offset: text::value_or(text::as_u64(text::unsigned_value(parts[2], 16)), 0),
                    dev: parts[3],
                    inode: text::value_or(text::as_u64(text::unsigned_value(parts[4], 10)), 0),
                    pathname: text::joined(parts.skip(5), " "@),
                },
            ),
        }
    }
}

fn parse_range(s: &[char]) -> (r: Option<(u64, u64)>)
    ensures
        r == range_in(s@),
{
    let range = split_char(s, '-');
    if range.len() != 2 {
        return None;
    }
    assert(text::views(range@)[0] == range@[0]@ && text::views(range@)[1] == range@[1]@);
    match (parse_hex_u64(range[0]), parse_hex_u64(range[1])) {
        (Some(start), Some(end)) => Some((start, end)),
        _ => None,
    }
}

/// The contents of an optional maps entry.
pub open spec fn entry_view(o: Option<MapsEntry>) -> Option<MapsEntryView> {
    match o {
        Some(e) => Some(e@),
        None => None,
    }
}

fn maps_entry_of(line: &[char]) -> (r: Option<MapsEntry>)
    ensures
        entry_view(r) == maps_entry_in(line@),
{
    let parts = split_words(line);
    if parts.len() < 5 {
        return None;
    }
    assert forall|k: int| 0 <= k < parts@.len() implies text::words(line@)[k]
        == #[trigger] parts@[k]@ by {
        assert(text::views(parts@)[k] == parts@[k]@);
    }
    let (start, end) = match parse_range(parts[0]) {
        Some(range) => range,
        None => {
            return None;
        },
    };
    let offset: u64 = match parse_hex_u64(parts[2]) {
        Some(n) => n,
        None => 0,
    };
    let inode: u64 = match parse_u64(parts[4]) {
        Some(n) => n,
        None => 0,
    };
    let entry = MapsEntry {
        start,
        end,
        perms: string_of(parts[1]),
        offset,
        dev: string_of(parts[3]),
        inode,
        pathname: join_from(&parts, 5, " "),
    };
    assert(entry@ == maps_entry_in(line@)->0);
    Some(entry)
}

/// Parses one line of a maps file.
pub fn parse_maps_line(line: &str) -> (r: Option<MapsEntry>)
    ensures
        entry_view(r) == maps_entry_in(line@),
{
    let chars = chars_of(line);
    maps_entry_of(chars.as_slice())
}

/// The entries of the lines that can be parsed, in order.
pub open spec fn maps_in(lines: Seq<Seq<char>>) -> Seq<MapsEntryView>
    decreases lines.len(),
{
    if lines.len() == 0 {
        Seq::empty()
    } else {
        let before = maps_in(lines.drop_last());
        match maps_entry_in(lines.last()) {
            Some(entry) => before.push(entry),
            None => before,
        }
    }
}

/// The contents of a memory map.
pub open spec fn maps_view(maps: Seq<MapsEntry>) -> Seq<MapsEntryView> {
    maps.map_values(|m: MapsEntry| m@)
}

/// The memory map of a process, from what reading /proc/PID/maps gave.
pub fn read_process_maps(pid: u32, content: Result<String, String>) -> (r: Result<
    Vec<MapsEntry>,
    ZramdedupError,
>)
    ensures
        match (content, r) {
            (Ok(content), Ok(maps)) => maps_view(maps@) == maps_in(text::lines(content@)),
            (Err(e), Err(error)) => is_proc_error(
                error,
                pid,
                complaint("cannot read "@, spec_proc_path(pid, "maps"@), e@),
            ),
            _ => false,
        },
{
    let content = match content {
        Ok(content) => content,
        Err(e) => {
            let path = proc_path(pid, "maps");
            return Err(failed(pid, "cannot read ", path.as_str(), e.as_str()));
        },
    };
    let chars = chars_of(content.as_str());
    let lines = split_lines(chars.as_slice());
    let mut entries: Vec<MapsEntry> = Vec::new();
    let ghost all = text::views(lines@);
    let mut i: usize = 0;
    assert(all.take(0) =~= Seq::<Seq<char>>::empty());
    assert(maps_view(entries@) =~= Seq::<MapsEntryView>::empty());
    while i < lines.len()
        invariant
            i <= lines.len(),
            all == text::views(lines@),
            maps_view(entries@) == maps_in(all.take(i as int)),
        decreases lines.len() - i,
    {
        assert(all.take(i + 1).drop_last() =~= all.take(i as int));
        assert(all.take(i + 1).last() == lines@[i as int]@);
        if let Some(entry) = maps_entry_of(lines[i]) {
            let ghost before = entries@;
            entries.push(entry);
            assert(maps_view(entries@) =~= maps_view(before).push(entry@));
        }
        i += 1;
    }
    assert(all.take(i as int) =~= all);
    Ok(entries)
}

// ---------------------------------------------------------------------------
// KSM statistics
// ---------------------------------------------------------------------------

impl KsmProcStat {
    /// The statistics after one line was read: a name and a value.
    pub open spec fn with_line(self, line: Seq<char>) -> KsmProcStat {
        let parts = text::words(line);
        if parts.len() < 2 {
            self
        } else if parts[0] == "ksm_rmap_items"@ {
            KsmProcStat {
                rmap_items: text::value_or(text::as_u64(text::unsigned_value(parts[1], 10)), 0),
                ..self
            }
        } else if parts[0] == "ksm_merging_pages"@ {
            KsmProcStat {
                merging_pages: text::value_or(text::as_u64(text::unsigned_value(parts[1], 10)), 0),
                ..self
            }
        } else if parts[0] == "ksm_process_profit"@ {
            KsmProcStat {
                process_profit: text::value_or(text::as_i64(text::signed_value(parts[1])), 0),
                ..self
            }
        } else if parts[0] == "ksm_merge_any"@ {
            KsmProcStat { merge_any: is_yes(parts[1]), ..self }
        } else if parts[0] == "ksm_mergeable"@ {
            KsmProcStat { mergeable: is_yes(parts[1]), ..self }
        } else {
            self
        }
    }

    /// The statistics after all lines were read, in order.
    pub open spec fn of_lines(lines: Seq<Seq<char>>) -> KsmProcStat
        decreases lines.len(),
    {
        if lines.len() == 0 {
            KsmProcStat::empty()
        } else {
            KsmProcStat::of_lines(lines.drop_last()).with_line(lines.last())
        }
    }
}

/// Whether a flag is set; kernels write it in two ways.
pub open spec fn is_yes(s: Seq<char>) -> bool {
    s == "1"@ || s == "yes"@
}

/// Parses the content of a ksm_stat file.
pub fn parse_ksm_stat(content: &str) -> (r: KsmProcStat)
    ensures
        r == KsmProcStat::of_lines(text::lines(content@)),
{
    let chars = chars_of(content);
    let lines = split_lines(chars.as_slice());
    let mut stat = KsmProcStat::default();
    let ghost all = text::views(lines@);
    let mut i: usize = 0;
    assert(all.take(0) =~= Seq::<Seq<char>>::empty());
    while i < lines.len()
        invariant
            i <= lines.len(),
            all == text::views(lines@),
            stat == KsmProcStat::of_lines(all.take(i as int)),
        decreases lines.len() - i,
    {
        assert(all.take(i + 1).drop_last() =~= all.take(i as int));
        assert(all.take(i + 1).last() == lines@[i as int]@);
        let parts = split_words(lines[i]);
        i += 1;
        if parts.len() < 2 {
            continue;
        }
        let name = parts[0];
        let value = parts[1];
        assert(text::views(parts@)[0] == name@ && text::views(parts@)[1] == value@);
        if spells(name, "ksm_rmap_items") {
            stat.rmap_items = match parse_u64(value) {
                Some(n) => n,
                None => 0,
            };
        } else if spells(name, "ksm_merging_pages") {
            stat.merging_pages = match parse_u64(value) {
                Some(n) => n,
                None => 0,
            };
        } else if spells(name, "ksm_process_profit") {
            stat.process_profit = match parse_i64(value) {
                Some(n) => n,
                None => 0,
            };
        } else if spells(name, "ksm_merge_any") {
            stat.merge_any = spells(value, "1") || spells(value, "yes");
        } else if spells(name, "ksm_mergeable") {
            stat.mergeable = spells(value, "1") || spells(value, "yes");
        }
    }
    assert(all.take(i as int) =~= all);
    stat
}

/// Per-process KSM statistics, from what reading /proc/PID/ksm_stat gave.
pub fn read_ksm_stat(pid: u32, content: Result<String, String>) -> (r: Result<
    KsmProcStat,
    ZramdedupError,
>)
    ensures
        match (content, r) {
            (Ok(content), Ok(stat)) => stat == KsmProcStat::of_lines(text::lines(content@)),
            (Err(e), Err(error)) => is_proc_error(
                error,
                pid,
                complaint("cannot read "@, spec_proc_path(pid, "ksm_stat"@), e@),
            ),
            _ => false,
        },
{
    match content {
        Ok(content) => Ok(parse_ksm_stat(content.as_str())),
        Err(e) => {
            let path = proc_path(pid, "ksm_stat");
            Err(failed(pid, "cannot read ", path.as_str(), e.as_str()))
        },
    }
}

// ---------------------------------------------------------------------------
// Page maps
// ---------------------------------------------------------------------------

/// `s` read backwards.
pub open spec fn backwards(s: Seq<u8>) -> Seq<u8> {
    Seq::new(s.len(), |i: int| s[s.len() - 1 - i])
}

/// Whether `word` is the number that eight bytes hold, in one of the two byte
/// orders that machines use.
pub open spec fn is_word(word: u64, bytes: Seq<u8>) -> bool {
    word == fingerprint::le_value(bytes) || word == fingerprint::le_value(backwards(bytes))
}

/// `u64::from_ne_bytes`: reads eight bytes in the byte order of the machine. The
/// order is the machine's, so the result is one of two.
#[verifier::external_body]
fn native_word(bytes: [u8; 8]) -> (r: u64)
    ensures
        is_word(r, bytes@),
{
    u64::from_ne_bytes(bytes)
}

/// The page frame number in a page map entry: bit 63 says that the page is
/// present, and the low 55 bits are the number.
pub open spec fn spec_pfn(entry: u64) -> Option<u64> {
    if entry >= 0x8000_0000_0000_0000 {
        Some((entry % 0x80_0000_0000_0000) as u64)
    } else {
        None
    }
}

/// The page frame number in a page map entry, if the page is present.
pub fn entry_pfn(entry: u64) -> (r: Option<u64>)
    ensures
        r == spec_pfn(entry),
{
    assert((entry >> 63) & 1 != 0 <==> entry >= 0x8000_0000_0000_0000) by (bit_vector);
    assert(entry & 0x7F_FFFF_FFFF_FFFF == entry % 0x80_0000_0000_0000) by (bit_vector);
    let present: bool = (entry >> 63) & 1 != 0;
    if !present {
        return None;
    }
    Some(entry & 0x7F_FFFF_FFFF_FFFF)
}

/// Where the entry of a virtual address begins in a page map.
pub fn pagemap_offset(vaddr: u64) -> (r: u64)
    ensures
        r == (vaddr / 4096) * 8,
{
    (vaddr / PAGE_BYTES) * 8
}

/// How many bytes of a page map describe the whole pages of a range.
pub fn pagemap_len(start: u64, end: u64) -> (r: u64)
    requires
        start <= end,
    ensures
        r == ((end - start) / 4096) * 8,
{
    ((end - start) / PAGE_BYTES) * 8
}

/// What reading one entry of a page map gave.
#[derive(Debug)]
pub enum PagemapEntry {
    OpenFailed(String),
    SeekFailed(String),
    ReadFailed(String),
    Bytes([u8; 8]),
}

/// The PFN (page frame number) of a page if it is present, from what reading its
/// page map entry gave.
pub fn read_pagemap_pfn(pid: u32, read: PagemapEntry) -> (r: Result<Option<u64>, ZramdedupError>)
    ensures
        match read {
            PagemapEntry::OpenFailed(e) => r matches Err(error) && is_proc_error(
                error,
                pid,
                complaint("cannot open "@, spec_proc_path(pid, "pagemap"@), e@),
            ),
            PagemapEntry::SeekFailed(e) => r matches Err(error) && is_proc_error(
                error,
                pid,
                complaint("cannot seek pagemap"@, ""@, e@),
            ),
            PagemapEntry::ReadFailed(e) => r matches Err(error) && is_proc_error(
                error,
                pid,
                complaint("cannot read pagemap entry"@, ""@, e@),
            ),
            PagemapEntry::Bytes(bytes) => r matches Ok(pfn) && exists|word: u64|
                #[trigger] is_word(word, bytes@) && pfn == spec_pfn(word),
        },
{
    match read {
        PagemapEntry::OpenFailed(e) => {
            let path = proc_path(pid, "pagemap");
            Err(failed(pid, "cannot open ", path.as_str(), e.as_str()))
        },
        PagemapEntry::SeekFailed(e) => Err(failed(pid, "cannot seek pagemap", "", e.as_str())),
        PagemapEntry::ReadFailed(e) => {
            Err(failed(pid, "cannot read pagemap entry", "", e.as_str()))
        },
        PagemapEntry::Bytes(bytes) => {
            let entry: u64 = native_word(bytes);
            Ok(entry_pfn(entry))
        },
    }
}

/// What reading a range of a page map gave.
#[derive(Debug)]
pub enum PagemapRange {
    OpenFailed(String),
    SeekFailed,
    /// The bytes that could be read; maybe fewer than were asked for.
    Bytes(Vec<u8>),
}

/// The page frame numbers of the entries whose pages are present, without the
/// zeroes that stand for hidden numbers.
pub open spec fn pfns_in(words: Seq<u64>) -> Seq<u64>
    decreases words.len(),
{
    if words.len() == 0 {
        Seq::empty()
    } else {
        let before = pfns_in(words.drop_last());
        match spec_pfn(words.last()) {
            Some(pfn) if pfn != 0 => before.push(pfn),
            _ => before,
        }
    }
}

/// Collects the page frame numbers of page map entries.
pub fn collect_pfns(words: &Vec<u64>) -> (r: Vec<u64>)
    ensures
        r@ == pfns_in(words@),
{
    let mut pfns: Vec<u64> = Vec::new();
    let mut i: usize = 0;
    assert(words@.take(0) =~= Seq::<u64>::empty());
    while i < words.len()
        invariant
            i <= words.len(),
            pfns@ == pfns_in(words@.take(i as int)),
        decreases words.len() - i,
    {
        assert(words@.take(i + 1).drop_last() =~= words@.take(i as int));
        if let Some(pfn) = entry_pfn(words[i]) {
            if pfn != 0 {
                pfns.push(pfn);
            }
        }
        i += 1;
    }
    assert(words@.take(i as int) =~= words@);
    pfns
}

/// Whether `words` are the numbers that the bytes hold, eight bytes each; bytes
/// that do not fill a number are left over.
pub open spec fn are_words(words: Seq<u64>, bytes: Seq<u8>) -> bool {
    &&& words.len() == bytes.len() / 8
    &&& forall|i: int|
        0 <= i < words.len() ==> is_word(#[trigger] words[i], bytes.subrange(i * 8, i * 8 + 8))
}

fn native_words(bytes: &Vec<u8>) -> (r: Vec<u64>)
    ensures
        are_words(r@, bytes@),
{
    let count: usize = bytes.len() / 8;
    let mut words: Vec<u64> = Vec::new();
    let mut i: usize = 0;
    while i < count
        invariant
            i <= count,
            count == bytes@.len() / 8,
            words@.len() == i,
            forall|k: int|
                0 <= k < i ==> is_word(#[trigger] words@[k], bytes@.subrange(k * 8, k * 8 + 8)),
        decreases count - i,
    {
        let len: usize = bytes.len();
        assert(i * 8 + 8 <= len);
        let at: usize = i * 8;
        let word: [u8; 8] = [
            bytes[at],
            bytes[at + 1],
            bytes[at + 2],
            bytes[at + 3],
            bytes[at + 4],
            bytes[at + 5],
            bytes[at + 6],
            bytes[at + 7],
        ];
        assert(word@ =~= bytes@.subrange(i * 8, i * 8 + 8));
        words.push(native_word(word));
        i += 1;
    }
    words
}

/// PFNs for all pages in a memory range, from what reading that part of the page
/// map gave. A process that is gone has none.
pub fn read_pagemap_range(pid: u32, read: PagemapRange) -> (r: Result<Vec<u64>, ZramdedupError>)
    ensures
        match read {
            PagemapRange::OpenFailed(e) => r matches Err(error) && is_proc_error(
                error,
                pid,
                complaint("cannot open "@, spec_proc_path(pid, "pagemap"@), e@),
            ),
            PagemapRange::SeekFailed => r matches Ok(pfns) && pfns@.len() == 0,
            PagemapRange::Bytes(bytes) => r matches Ok(pfns) && exists|words: Seq<u64>|
                #[trigger] are_words(words, bytes@) && pfns@ == pfns_in(words),
        },
{
    match read {
        PagemapRange::OpenFailed(e) => {
            let path = proc_path(pid, "pagemap");
            Err(failed(pid, "cannot open ", path.as_str(), e.as_str()))
        },
        PagemapRange::SeekFailed => Ok(Vec::new()),
        PagemapRange::Bytes(bytes) => {
            let words = native_words(&bytes);
            Ok(collect_pfns(&words))
        },
    }
}

// ---------------------------------------------------------------------------
// Laws
// ---------------------------------------------------------------------------

/// Whether a text is one word: not empty, and without white space.
pub open spec fn is_one_word(s: Seq<char>) -> bool {
    s.len() > 0 && forall|i: int| 0 <= i < s.len() ==> !text::is_white(#[trigger] s[i])
}

/// A name blocks if it holds any pattern of the list, whichever it is, and only then.
pub proof fn law_every_pattern_blocks(
    name: Seq<char>,
    blocklist: Seq<Seq<char>>,
    before: Seq<char>,
    i: int,
    after: Seq<char>,
)
    requires
        0 <= i < blocklist.len(),
    ensures
        name == before + blocklist[i] + after ==> spec_is_blocklisted(name, blocklist),
        spec_is_blocklisted(name, blocklist) ==> exists|k: int|
            0 <= k < blocklist.len() && text::contains_text(name, #[trigger] blocklist[k]),
{
    text::law_parts_are_contained(name, before, blocklist[i], after);
}

/// The process list holds the numbers among the names, in their order, and nothing else.
pub proof fn law_numbers_are_processes(
    a: Seq<Seq<char>>,
    b: Seq<Seq<char>>,
    pid: u32,
    name: Seq<char>,
)
    ensures
        pids_in(a + b) == pids_in(a) + pids_in(b),
        pids_in(seq![text::decimal(pid as nat)]) == seq![pid],
        (exists|i: int|
            0 <= i < name.len() && #[trigger] name[i] != '+' && text::digit_value(
                name[i],
                10,
            ) is None) ==> pids_in(seq![name]) == Seq::<u32>::empty(),
{
    lemma_pids_append(a, b);
    let one = seq![text::decimal(pid as nat)];
    assert(one.drop_last() =~= Seq::<Seq<char>>::empty());
    text::law_decimal_round_trip(pid as u64);
    assert(pids_in(one.drop_last()) =~= Seq::<u32>::empty());
    assert(pids_in(one) =~= seq![pid]);
    let other = seq![name];
    assert(other.drop_last() =~= Seq::<Seq<char>>::empty());
    if exists|i: int|
        0 <= i < name.len() && #[trigger] name[i] != '+' && text::digit_value(
            name[i],
            10,
        ) is None {
        let i = choose|i: int|
            0 <= i < name.len() && #[trigger] name[i] != '+' && text::digit_value(
                name[i],
                10,
            ) is None;
        let body = if name[0] == '+' {
            name.skip(1)
        } else {
            name
        };
        let k = if name[0] == '+' {
            i - 1
        } else {
            i
        };
        assert(body[k] == name[i]);
        text::lemma_all_digits(body, 10);
        assert(pids_in(other) =~= Seq::<u32>::empty());
    }
}

proof fn lemma_pids_append(a: Seq<Seq<char>>, b: Seq<Seq<char>>)
    ensures
        pids_in(a + b) == pids_in(a) + pids_in(b),
    decreases b.len(),
{
    if b.len() == 0 {
        assert(a + b =~= a);
        assert(pids_in(a) + pids_in(b) =~= pids_in(a));
    } else {
        lemma_pids_append(a, b.drop_last());
        assert((a + b).drop_last() =~= a + b.drop_last());
        assert((a + b).last() == b.last());
        assert(pids_in(a + b) =~= pids_in(a) + pids_in(b));
    }
}

/// An amount is read in kilobytes, with or without the unit and with any white space in
/// front and behind.
pub proof fn law_amounts_are_in_kilobytes(before: Seq<char>, n: u64, after: Seq<char>)
    requires
        forall|i: int| 0 <= i < before.len() ==> text::is_white(#[trigger] before[i]),
        forall|i: int| 0 <= i < after.len() ==> text::is_white(#[trigger] after[i]),
    ensures
        kb_value(before + (text::decimal(n as nat) + " kB"@) + after) == n,
        kb_value(before + text::decimal(n as nat) + after) == n,
{
    reveal_strlit(" kB");
    let d = text::decimal(n as nat);
    let unit = " kB"@;
    assert(unit.len() == 3 && unit[0] == ' ' && unit[1] == 'k' && unit[2] == 'B');
    text::lemma_decimal_digits(n as nat);
    text::law_decimal_round_trip(n);
    assert(0x30 <= d[0] as u32 <= 0x39);
    assert(0x30 <= d[d.len() - 1] as u32 <= 0x39);
    let both = d + unit;
    assert(both[0] == d[0]);
    assert(both.last() == 'B');
    text::law_white_space_is_trimmed(before, both, after);
    text::law_white_space_is_trimmed(before, d, after);
    text::law_suffixes_are_taken_off(d, unit);
    if text::has_suffix(d, unit) {
        assert(d.subrange(d.len() - 3, d.len() - 3 + 3)[2] == d[d.len() - 1]);
    }
}

/// The lines of a status file have their meaning: the name, the resident, the anonymous
/// and the swapped memory. Each sets one field and leaves the others.
pub proof fn law_status_lines_have_their_meaning(
    status: ProcessStatusView,
    name: Seq<char>,
    n: u64,
)
    requires
        name.len() == 0 || (!text::is_white(name[0]) && !text::is_white(name.last())),
    ensures
        status.with_line("Name:"@ + (seq!['\t'] + name)) == (ProcessStatusView { name, ..status }),
        status.with_line("VmRSS:"@ + (seq!['\t'] + (text::decimal(n as nat) + " kB"@))) == (
        ProcessStatusView { vm_rss_kb: n, ..status }),
        status.with_line("VmAnon:"@ + (seq!['\t'] + (text::decimal(n as nat) + " kB"@))) == (
        ProcessStatusView { vm_anon_kb: n, ..status }),
        status.with_line("VmSwap:"@ + (seq!['\t'] + (text::decimal(n as nat) + " kB"@))) == (
        ProcessStatusView { vm_swap_kb: n, ..status }),
{
    reveal_strlit("Name:");
    reveal_strlit("VmRSS:");
    reveal_strlit("VmAnon:");
    reveal_strlit("VmSwap:");
    let tab = seq!['\t'];
    let none = Seq::<char>::empty();
    let amount = text::decimal(n as nat) + " kB"@;
    let value = tab + amount;
    text::law_white_space_is_trimmed(tab, name, none);
    assert(tab + name + none =~= tab + name);
    law_amounts_are_in_kilobytes(tab, n, none);
    assert(tab + amount + none =~= value);
    text::law_prefix_is_taken_off(none, "Name:"@, tab + name);
    text::law_prefix_is_taken_off(none, "VmRSS:"@, value);
    text::law_prefix_is_taken_off(none, "VmAnon:"@, value);
    text::law_prefix_is_taken_off(none, "VmSwap:"@, value);
    lemma_other_prefix("VmRSS:"@ + value, "Name:"@, 0);
    lemma_other_prefix("VmAnon:"@ + value, "Name:"@, 0);
    lemma_other_prefix("VmSwap:"@ + value, "Name:"@, 0);
    lemma_other_prefix("VmAnon:"@ + value, "VmRSS:"@, 2);
    lemma_other_prefix("VmSwap:"@ + value, "VmRSS:"@, 2);
    lemma_other_prefix("VmSwap:"@ + value, "VmAnon:"@, 2);
}

/// A text that differs from a prefix at some place does not begin with it.
proof fn lemma_other_prefix(s: Seq<char>, pat: Seq<char>, i: int)
    requires
        0 <= i < pat.len(),
        i < s.len(),
        s[i] != pat[i],
    ensures
        text::after_prefix(s, pat) is None,
{
    if text::has_prefix(s, pat) {
        assert(s.subrange(0, 0 + pat.len() as int)[i] == s[i]);
    }
}

/// Any other line of a status file changes nothing, and of two lines for one field the
/// last counts.
pub proof fn law_other_status_lines_are_skipped(
    pid: u32,
    status: ProcessStatusView,
    lines: Seq<Seq<char>>,
    line: Seq<char>,
)
    requires
        !text::has_prefix(line, "Name:"@),
        !text::has_prefix(line, "VmRSS:"@),
        !text::has_prefix(line, "VmAnon:"@),
        !text::has_prefix(line, "VmSwap:"@),
    ensures
        status.with_line(line) == status,
        ProcessStatusView::of_lines(pid, lines.push(line)) == ProcessStatusView::of_lines(
            pid,
            lines,
        ),
        ProcessStatusView::of_lines(pid, lines).pid == pid,
{
    assert(lines.push(line).drop_last() =~= lines);
    lemma_status_pid(pid, lines);
}

proof fn lemma_status_pid(pid: u32, lines: Seq<Seq<char>>)
    ensures
        ProcessStatusView::of_lines(pid, lines).pid == pid,
    decreases lines.len(),
{
    if lines.len() > 0 {
        lemma_status_pid(pid, lines.drop_last());
    }
}

/// A status file that was written is read back: its four lines, one behind the other.
pub proof fn law_status_is_read_back(pid: u32, name: Seq<char>, rss: u64, anon: u64, swap: u64)
    requires
        name.len() == 0 || (!text::is_white(name[0]) && !text::is_white(name.last())),
    ensures
        ProcessStatusView::of_lines(
            pid,
            seq![
                "Name:"@ + (seq!['\t'] + name),
                "VmRSS:"@ + (seq!['\t'] + (text::decimal(rss as nat) + " kB"@)),
                "VmAnon:"@ + (seq!['\t'] + (text::decimal(anon as nat) + " kB"@)),
                "VmSwap:"@ + (seq!['\t'] + (text::decimal(swap as nat) + " kB"@)),
            ],
        ) == (ProcessStatusView {
            pid,
            name,
            vm_rss_kb: rss,
            vm_anon_kb: anon,
            vm_swap_kb: swap,
        }),
        ProcessStatusView::of_lines(pid, Seq::empty()) == (ProcessStatusView {
            pid,
            name: Seq::empty(),
            vm_rss_kb: 0,
            vm_anon_kb: 0,
            vm_swap_kb: 0,
        }),
{
    reveal_strlit("");
    let l1 = "Name:"@ + (seq!['\t'] + name);
    let l2 = "VmRSS:"@ + (seq!['\t'] + (text::decimal(rss as nat) + " kB"@));
    let l3 = "VmAnon:"@ + (seq!['\t'] + (text::decimal(anon as nat) + " kB"@));
    let l4 = "VmSwap:"@ + (seq!['\t'] + (text::decimal(swap as nat) + " kB"@));
    let s0 = Seq::<Seq<char>>::empty();
    assert(""@ =~= Seq::<char>::empty());
    let e = ProcessStatusView::of_lines(pid, s0);
    assert(e == ProcessStatusView::empty(pid));
    assert(seq![l1].drop_last() =~= s0);
    assert(seq![l1, l2].drop_last() =~= seq![l1]);
    assert(seq![l1, l2, l3].drop_last() =~= seq![l1, l2]);
    assert(seq![l1, l2, l3, l4].drop_last() =~= seq![l1, l2, l3]);
    let r1 = ProcessStatusView::of_lines(pid, seq![l1]);
    let r2 = ProcessStatusView::of_lines(pid, seq![l1, l2]);
    let r3 = ProcessStatusView::of_lines(pid, seq![l1, l2, l3]);
    assert(r1 == e.with_line(l1));
    assert(r2 == r1.with_line(l2));
    assert(r3 == r2.with_line(l3));
    law_status_lines_have_their_meaning(e, name, rss);
    law_status_lines_have_their_meaning(r1, name, rss);
    law_status_lines_have_their_meaning(r2, name, anon);
    law_status_lines_have_their_meaning(r3, name, swap);
}

proof fn lemma_two_words(a: Seq<char>, b: Seq<char>)
    requires
        is_one_word(a),
    ensures
        text::words(a + seq![' '] + b) == seq![a] + text::words(b),
{
    text::law_white_space_separates_words(a, ' ', b);
}

/// The fields of a maps line have their meaning: the range of addresses and the offset in
/// hexadecimal, the permissions and the device as they stand, and the inode in decimal.
/// What follows is the path, with single spaces between its words.
pub proof fn law_maps_lines_have_their_meaning(
    start: Seq<char>,
    end: Seq<char>,
    perms: Seq<char>,
    offset: Seq<char>,
    dev: Seq<char>,
    inode: u64,
    path: Seq<char>,
    numbers: (u64, u64, u64),
)
    requires
        text::unsigned_value(start, 16) == Some(numbers.0 as nat),
        text::unsigned_value(end, 16) == Some(numbers.1 as nat),
        text::unsigned_value(offset, 16) == Some(numbers.2 as nat),
        is_one_word(start),
        is_one_word(end),
        is_one_word(perms),
        is_one_word(offset),
        is_one_word(dev),
        !start.contains('-'),
        !end.contains('-'),
    ensures
        maps_entry_in(
            (start + seq!['-'] + end) + seq![' '] + (perms + seq![' '] + (offset + seq![' '] + (dev
                + seq![' '] + (text::decimal(inode as nat) + seq![' '] + path)))),
        ) == Some(
            MapsEntryView {
                start: numbers.0,
                end: numbers.1,
                perms,
                offset: numbers.2,
                dev,
                inode,
                pathname: text::joined(text::words(path), seq![' ']),
            },
        ),
{
    let range = start + seq!['-'] + end;
    assert forall|i: int| 0 <= i < range.len() implies !text::is_white(#[trigger] range[i]) by {
        if i < start.len() {
            assert(!text::is_white(start[i]));
        } else if i > start.len() {
            assert(!text::is_white(end[i - start.len() - 1]));
        }
    }
    let d = text::decimal(inode as nat);
    text::lemma_decimal_digits(inode as nat);
    text::law_decimal_round_trip(inode);
    assert forall|i: int| 0 <= i < d.len() implies !text::is_white(#[trigger] d[i]) by {
        assert(0x30 <= d[i] as u32 <= 0x39);
    }
    let r1 = d + seq![' '] + path;
    let r2 = dev + seq![' '] + r1;
    let r3 = offset + seq![' '] + r2;
    let r4 = perms + seq![' '] + r3;
    lemma_two_words(d, path);
    lemma_two_words(dev, r1);
    lemma_two_words(offset, r2);
    lemma_two_words(perms, r3);
    lemma_two_words(range, r4);
    let line = range + seq![' '] + r4;
    let parts = text::words(line);
    assert(parts =~= seq![range, perms, offset, dev, d] + text::words(path));
    assert(parts.skip(5) =~= text::words(path));
    text::law_separators_split(start, '-', end);
    text::law_separators_split(end, '-', end);
    let pieces = text::split_at_char(range, '-');
    assert(pieces =~= seq![start, end]);
    reveal_strlit(" ");
    assert(" "@ =~= seq![' ']);
}

/// A line with fewer than five words is no entry, and neither is one whose first word is
/// not a range.
pub proof fn law_short_maps_lines_are_skipped(line: Seq<char>)
    ensures
        text::words(line).len() < 5 ==> maps_entry_in(line) is None,
        text::words(line).len() > 0 && !text::words(line)[0].contains('-') ==> maps_entry_in(
            line,
        ) is None,
{
    if text::words(line).len() > 0 && !text::words(line)[0].contains('-') {
        let first = text::words(line)[0];
        text::law_separators_split(first, '-', first);
    }
}

/// The entries of two lists of lines are those of the one and those of the other.
pub proof fn law_maps_keep_their_order(a: Seq<Seq<char>>, b: Seq<Seq<char>>, line: Seq<char>)
    ensures
        maps_in(a + b) == maps_in(a) + maps_in(b),
        maps_in(seq![line]) == (match maps_entry_in(line) {
            Some(entry) => seq![entry],
            None => Seq::empty(),
        }),
    decreases b.len(),
{
    let one = seq![line];
    assert(one.drop_last() =~= Seq::<Seq<char>>::empty());
    assert(maps_in(one.drop_last()) =~= Seq::<MapsEntryView>::empty());
    assert(maps_in(one) =~= (match maps_entry_in(line) {
        Some(entry) => seq![entry],
        None => Seq::empty(),
    }));
    if b.len() == 0 {
        assert(a + b =~= a);
        assert(maps_in(a) + maps_in(b) =~= maps_in(a));
    } else {
        law_maps_keep_their_order(a, b.drop_last(), line);
        assert((a + b).drop_last() =~= a + b.drop_last());
        assert((a + b).last() == b.last());
        assert(maps_in(a + b) =~= maps_in(a) + maps_in(b));
    }
}

/// A page frame number is the entry without the bit that says that the page is present
/// and the eight below it; without that bit there is none.
pub proof fn law_present_pages_have_frames(flags: u64, pfn: u64)
    requires
        flags < 256,
        pfn < 0x80_0000_0000_0000,
    ensures
        spec_pfn((0x8000_0000_0000_0000 + flags * 0x80_0000_0000_0000 + pfn) as u64) == Some(pfn),
        spec_pfn((flags * 0x80_0000_0000_0000 + pfn) as u64) is None,
{
    let entry = 0x8000_0000_0000_0000 + flags * 0x80_0000_0000_0000 + pfn;
    assert(entry == (256 + flags) * 0x80_0000_0000_0000 + pfn);
    assert(entry % 0x80_0000_0000_0000 == pfn) by (nonlinear_arith)
        requires
            entry == (256 + flags) * 0x80_0000_0000_0000 + pfn,
            0 <= pfn < 0x80_0000_0000_0000,
    ;
}

/// The frames of two lists of entries are those of the one and those of the other; zero
/// stands for a number that is hidden.
pub proof fn law_frames_keep_their_order(a: Seq<u64>, b: Seq<u64>, word: u64)
    ensures
        pfns_in(a + b) == pfns_in(a) + pfns_in(b),
        pfns_in(seq![word]) == (if spec_pfn(word) is None || spec_pfn(word) == Some(0u64) {
            Seq::<u64>::empty()
        } else {
            seq![spec_pfn(word)->0]
        }),
    decreases b.len(),
{
    let one = seq![word];
    assert(one.drop_last() =~= Seq::<u64>::empty());
    assert(pfns_in(one.drop_last()) =~= Seq::<u64>::empty());
    assert(one.last() == word);
    assert(pfns_in(one) =~= (if spec_pfn(word) is None || spec_pfn(word) == Some(0u64) {
        Seq::<u64>::empty()
    } else {
        seq![spec_pfn(word)->0]
    }));
    if b.len() == 0 {
        assert(a + b =~= a);
        assert(pfns_in(a) + pfns_in(b) =~= pfns_in(a));
    } else {
        law_frames_keep_their_order(a, b.drop_last(), word);
        assert((a + b).drop_last() =~= a + b.drop_last());
        assert((a + b).last() == b.last());
        assert(pfns_in(a + b) =~= pfns_in(a) + pfns_in(b));
    }
}

proof fn lemma_stat_line(name: Seq<char>, value: Seq<char>)
    requires
        is_one_word(name),
        is_one_word(value),
    ensures
        text::words(name + seq![' '] + value) == seq![name, value],
{
    lemma_two_words(name, value);
    text::law_white_space_separates_words(value, ' ', value);
    assert(seq![name] + seq![value] =~= seq![name, value]);
}

/// The counters of a ksm_stat file have their meaning: each line sets one field to its
/// number and leaves the others.
pub proof fn law_ksm_stat_counters_have_their_meaning(stat: KsmProcStat, n: u64, profit: i64)
    ensures
        stat.with_line("ksm_rmap_items"@ + seq![' '] + text::decimal(n as nat)) == (KsmProcStat {
            rmap_items: n,
            ..stat
        }),
        stat.with_line("ksm_merging_pages"@ + seq![' '] + text::decimal(n as nat)) == (
        KsmProcStat { merging_pages: n, ..stat }),
        stat.with_line("ksm_process_profit"@ + seq![' '] + text::signed_decimal(profit as int))
            == (KsmProcStat { process_profit: profit, ..stat }),
{
    reveal_strlit("ksm_rmap_items");
    reveal_strlit("ksm_merging_pages");
    reveal_strlit("ksm_process_profit");
    reveal_strlit("-");
    let d = text::decimal(n as nat);
    text::lemma_decimal_digits(n as nat);
    text::law_decimal_round_trip(n);
    assert(is_one_word(d)) by {
        assert forall|i: int| 0 <= i < d.len() implies !text::is_white(#[trigger] d[i]) by {
            assert(0x30 <= d[i] as u32 <= 0x39);
        }
    }
    let p = text::signed_decimal(profit as int);
    text::law_signed_numbers_are_read_back(profit);
    assert(is_one_word(p)) by {
        let m = (if profit < 0 {
            -profit
        } else {
            profit as int
        }) as nat;
        let digits = text::decimal(m);
        text::lemma_decimal_digits(m);
        assert forall|i: int| 0 <= i < p.len() implies !text::is_white(#[trigger] p[i]) by {
            if profit < 0 {
                if i > 0 {
                    assert(p[i] == digits[i - 1]);
                    assert(0x30 <= digits[i - 1] as u32 <= 0x39);
                }
            } else {
                assert(0x30 <= digits[i] as u32 <= 0x39);
            }
        }
    }
    lemma_stat_line("ksm_rmap_items"@, d);
    lemma_stat_line("ksm_merging_pages"@, d);
    lemma_stat_line("ksm_process_profit"@, p);
    assert("ksm_merging_pages"@[4] != "ksm_rmap_items"@[4]);
    assert("ksm_process_profit"@[4] != "ksm_rmap_items"@[4]);
    assert("ksm_process_profit"@[4] != "ksm_merging_pages"@[4]);
}

/// The flags of a ksm_stat file have their meaning: "1" and "yes" set them, every other
/// word clears them.
pub proof fn law_ksm_stat_flags_have_their_meaning(stat: KsmProcStat, value: Seq<char>)
    requires
        is_one_word(value),
    ensures
        stat.with_line("ksm_merge_any"@ + seq![' '] + value) == (KsmProcStat {
            merge_any: value == "1"@ || value == "yes"@,
            ..stat
        }),
        stat.with_line("ksm_mergeable"@ + seq![' '] + value) == (KsmProcStat {
            mergeable: value == "1"@ || value == "yes"@,
            ..stat
        }),
{
    reveal_strlit("ksm_rmap_items");
    reveal_strlit("ksm_merging_pages");
    reveal_strlit("ksm_process_profit");
    reveal_strlit("ksm_merge_any");
    reveal_strlit("ksm_mergeable");
    lemma_stat_line("ksm_merge_any"@, value);
    lemma_stat_line("ksm_mergeable"@, value);
    assert("ksm_merge_any"@.len() == 13 && "ksm_mergeable"@.len() == 13);
    assert("ksm_merge_any"@[9] != "ksm_mergeable"@[9]);
    assert("ksm_rmap_items"@.len() == 14);
    assert("ksm_merging_pages"@.len() == 17);
    assert("ksm_process_profit"@.len() == 18);
}

/// A line of a ksm_stat file with less than two words changes nothing, and without a line
/// everything is zero and no flag is set.
pub proof fn law_other_ksm_stat_lines_are_skipped(
    stat: KsmProcStat,
    lines: Seq<Seq<char>>,
    line: Seq<char>,
)
    ensures
        text::words(line).len() < 2 ==> stat.with_line(line) == stat,
        KsmProcStat::of_lines(lines.push(line)) == KsmProcStat::of_lines(lines).with_line(line),
        KsmProcStat::of_lines(Seq::empty()) == (KsmProcStat {
            rmap_items: 0,
            merging_pages: 0,
            process_profit: 0,
            merge_any: false,
            mergeable: false,
        }),
{
    assert(lines.push(line).drop_last() =~= lines);
}

/// A path below /proc names the process and the file.
pub proof fn law_paths_name_process_and_file(pid: u32, file: Seq<char>)
    requires
        !file.contains('/'),
    ensures
        text::split_at_char(spec_proc_path(pid, file), '/') == seq![
            ""@,
            "proc"@,
            text::decimal(pid as nat),
            file,
        ],
{
    reveal_strlit("");
    reveal_strlit("proc");
    reveal_strlit("/");
    reveal_strlit("/proc/");
    let d = text::decimal(pid as nat);
    text::lemma_decimal_digits(pid as nat);
    assert(!d.contains('/')) by {
        assert forall|i: int| 0 <= i < d.len() implies d[i] != '/' by {
            assert(0x30 <= d[i] as u32 <= 0x39);
        }
    }
    let parts = seq![""@, "proc"@, d, file];
    let slash = seq!['/'];
    assert("/"@ =~= slash);
    assert(!parts[0].contains('/') && !parts[1].contains('/'));
    assert forall|i: int| 0 <= i < parts.len() implies !(#[trigger] parts[i]).contains('/') by {
        assert(i == 0 || i == 1 || i == 2 || i == 3);
    }
    text::law_joined_texts_split(parts, '/');
    assert(parts.drop_last() =~= seq![""@, "proc"@, d]);
    assert(parts.drop_last().drop_last() =~= seq![""@, "proc"@]);
    assert(parts.drop_last().drop_last().drop_last() =~= seq![""@]);
    reveal_with_fuel(text::joined, 5);
    assert(text::joined(seq![""@], slash) == ""@);
    assert(text::joined(seq![""@, "proc"@], slash) =~= ""@ + slash + "proc"@);
    assert(text::joined(seq![""@, "proc"@, d], slash) =~= ""@ + slash + "proc"@ + slash + d);
    assert(text::joined(parts, slash) =~= spec_proc_path(pid, file));
}

/// An error about a process names that process and what went wrong.
pub proof fn law_errors_name_their_process(pid: u32, detail: String, p: u32, d: Seq<char>)
    ensures
        is_proc_error(ZramdedupError::Procfs { pid, detail }, p, d) <==> pid == p && detail@ == d,
        text::contains_text(
            complaint("cannot read "@, spec_proc_path(p, "maps"@), d),
            spec_proc_path(p, "maps"@),
        ),
        text::contains_text(complaint("cannot read "@, spec_proc_path(p, "maps"@), d), d),
{
    let what = "cannot read "@;
    let path = spec_proc_path(p, "maps"@);
    let all = complaint(what, path, d);
    assert(text::contains_text(all, path)) by {
        let behind = ": "@ + d;
        text::lemma_contains(what, path, behind);
        assert(what + path + behind =~= all);
    }
    assert(text::contains_text(all, d)) by {
        let front = what + path + ": "@;
        let none = Seq::<char>::empty();
        text::lemma_contains(front, d, none);
        assert(front + d + none =~= all);
    }
}

/// The bytes of a number, in either order, hold that number; of a page map the bytes that
/// do not fill a number are left over.
pub proof fn law_words_hold_their_bytes(x: u64, words: Seq<u64>, bytes: Seq<u8>)
    ensures
        is_word(x, fingerprint::le_bytes(x as nat, 8)),
        is_word(x, fingerprint::le_bytes(x as nat, 8).reverse()),
        are_words(words, bytes) ==> words.len() * 8 <= bytes.len() < words.len() * 8 + 8,
{
    let b = fingerprint::le_bytes(x as nat, 8);
    fingerprint::law_least_significant_byte_comes_first(x as nat, 8, b);
    assert(fingerprint::pow256(8) == 0x1_0000_0000_0000_0000) by {
        reveal_with_fuel(fingerprint::pow256, 9);
    }
    assert(backwards(b.reverse()) =~= b);
}

} // verus!
