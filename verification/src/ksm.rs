//! KSM (Kernel Same-page Merging) sysfs controller.
//!
//! Decides what is read from and written to the KSM directory: parses the files
//! that the caller read, and says which validated writes the caller has to make.

use vstd::prelude::*;
use vstd::string::StringExecFns;

use crate::error::ZramdedupError;
use crate::outside;
use crate::state;
use crate::text;
use crate::text::{
    chars_of, decimal_text, find_char, parse_i64, parse_u64, part, same_text, split_char,
    string_of, strip_leading, text_contains, trim, trim_text,
};

verus! {

/// Minimum interval between KSM parameter updates.
pub const MIN_UPDATE_INTERVAL_MS: u64 = 500;

/// Snapshot file name within state directory.
pub const SNAPSHOT_FILENAME: &'static str = "ksm-snapshot.json";

/// Current KSM runtime statistics read from sysfs.
#[derive(Debug, Clone, Copy, PartialEq, Eq, Structural)]
pub struct KsmStats {
    pub pages_shared: u64,
    pub pages_sharing: u64,
    pub pages_unshared: u64,
    pub pages_volatile: u64,
    pub pages_scanned: u64,
    pub pages_skipped: u64,
    pub full_scans: u64,
    pub general_profit: i64,
    pub ksm_zero_pages: u64,
    pub stable_node_chains: u64,
    pub stable_node_dups: u64,
}

impl Default for KsmStats {
    fn default() -> (r: Self)
        ensures
            r == (KsmStats {
                pages_shared: 0,
                pages_sharing: 0,
                pages_unshared: 0,
                pages_volatile: 0,
                pages_scanned: 0,
                pages_skipped: 0,
                full_scans: 0,
                general_profit: 0,
                ksm_zero_pages: 0,
                stable_node_chains: 0,
                stable_node_dups: 0,
            }),
    {
        KsmStats {
            pages_shared: 0,
            pages_sharing: 0,
            pages_unshared: 0,
            pages_volatile: 0,
            pages_scanned: 0,
            pages_skipped: 0,
            full_scans: 0,
            general_profit: 0,
            ksm_zero_pages: 0,
            stable_node_chains: 0,
            stable_node_dups: 0,
        }
    }
}

/// KSM configuration state (the writable parameters).
#[derive(Debug, Clone)]
pub struct KsmConfig {
    pub run: u64,
    pub pages_to_scan: u64,
    pub sleep_millisecs: u64,
    pub max_page_sharing: u64,
    pub smart_scan: u64,
    pub advisor_mode: String,
    pub advisor_target_scan_time: u64,
    pub advisor_max_cpu: u64,
    pub advisor_min_pages_to_scan: u64,
    pub advisor_max_pages_to_scan: u64,
}

/// The contents of a KSM configuration.
#[verifier::ext_equal]
pub struct KsmConfigView {
    pub run: u64,
    pub pages_to_scan: u64,
    pub sleep_millisecs: u64,
    pub max_page_sharing: u64,
    pub smart_scan: u64,
    pub advisor_mode: Seq<char>,
    pub advisor_target_scan_time: u64,
    pub advisor_max_cpu: u64,
    pub advisor_min_pages_to_scan: u64,
    pub advisor_max_pages_to_scan: u64,
}

impl View for KsmConfig {
    type V = KsmConfigView;

    open spec fn view(&self) -> KsmConfigView {
        KsmConfigView {
            run: self.run,
            pages_to_scan: self.pages_to_scan,
            sleep_millisecs: self.sleep_millisecs,
            max_page_sharing: self.max_page_sharing,
            smart_scan: self.smart_scan,
            advisor_mode: self.advisor_mode@,
            advisor_target_scan_time: self.advisor_target_scan_time,
            advisor_max_cpu: self.advisor_max_cpu,
            advisor_min_pages_to_scan: self.advisor_min_pages_to_scan,
            advisor_max_pages_to_scan: self.advisor_max_pages_to_scan,
        }
    }
}

impl Default for KsmConfig {
    fn default() -> (r: Self)
        ensures
            r@ == (KsmConfigView {
                run: 0,
                pages_to_scan: 0,
                sleep_millisecs: 0,
                max_page_sharing: 0,
                smart_scan: 0,
                advisor_mode: Seq::empty(),
                advisor_target_scan_time: 0,
                advisor_max_cpu: 0,
                advisor_min_pages_to_scan: 0,
                advisor_max_pages_to_scan: 0,
            }),
    {
        KsmConfig {
            run: 0,
            pages_to_scan: 0,
            sleep_millisecs: 0,
            max_page_sharing: 0,
            smart_scan: 0,
            advisor_mode: String::new(),
            advisor_target_scan_time: 0,
            advisor_max_cpu: 0,
            advisor_min_pages_to_scan: 0,
            advisor_max_pages_to_scan: 0,
        }
    }
}

/// Snapshot of KSM state for restore on shutdown.
#[derive(Debug, Clone)]
pub struct KsmSnapshot {
    pub config: KsmConfig,
    pub timestamp: String,
}

// ---------------------------------------------------------------------------
// The directory
// ---------------------------------------------------------------------------

/// One entry of the KSM directory, with what reading it gave: its text, or a
/// description of the failure.
#[derive(Debug)]
pub struct SysfsFile {
    pub name: String,
    pub content: Result<String, String>,
}

/// What is said of a file that is not there.
pub const NOT_FOUND: &'static str = "No such file or directory (os error 2)";

/// What reading the file with the given name gave; the first entry counts.
pub open spec fn content_of(files: Seq<SysfsFile>, name: Seq<char>) -> Result<Seq<char>, Seq<char>>
    decreases files.len(),
{
    if files.len() == 0 {
        Err(NOT_FOUND@)
    } else if files[0].name@ == name {
        match files[0].content {
            Ok(text) => Ok(text@),
            Err(e) => Err(e@),
        }
    } else {
        content_of(files.skip(1), name)
    }
}

/// The contents of a result of texts.
pub open spec fn result_view(r: Result<&str, &str>) -> Result<Seq<char>, Seq<char>> {
    match r {
        Ok(text) => Ok(text@),
        Err(e) => Err(e@),
    }
}

/// What reading the file with the given name gave.
pub fn find_file<'a>(files: &'a Vec<SysfsFile>, name: &str) -> (r: Result<&'a str, &'a str>)
    ensures
        result_view(r) == content_of(files@, name@),
{
    let mut i: usize = 0;
    assert(files@.skip(0) =~= files@);
    while i < files.len()
        invariant
            i <= files.len(),
            content_of(files@, name@) == content_of(files@.skip(i as int), name@),
        decreases files.len() - i,
    {
        assert(files@.skip(i as int)[0] == files@[i as int]);
        assert(files@.skip(i as int).skip(1) =~= files@.skip(i + 1));
        if same_text(files[i].name.as_str(), name) {
            return match &files[i].content {
                Ok(text) => Ok(text.as_str()),
                Err(e) => Err(e.as_str()),
            };
        }
        i += 1;
    }
    Err(NOT_FOUND)
}

/// The path of a parameter file.
pub open spec fn spec_param_path(base: Seq<char>, param: Seq<char>) -> Seq<char> {
    if base.len() == 0 || base.last() == '/' {
        base + param
    } else {
        base + "/"@ + param
    }
}

fn param_path(base: &str, param: &str) -> (r: String)
    ensures
        r@ == spec_param_path(base@, param@),
{
    let chars = chars_of(base);
    let mut path = String::from_str(base);
    if chars.len() > 0 && chars[chars.len() - 1] != '/' {
        path.append("/");
    }
    path.append(param);
    path
}

// ---------------------------------------------------------------------------
// Parsing
// ---------------------------------------------------------------------------

/// The part of a file that holds its number: opening brackets in front are
/// skipped, and it ends at a closing bracket.
pub open spec fn number_part(content: Seq<char>) -> Seq<char> {
    text::split_at_char(text::without_leading(text::trimmed(content), '['), ']')[0]
}

/// The number that a file holds.
pub open spec fn number_in(content: Seq<char>) -> Option<u64> {
    text::as_u64(text::unsigned_value(number_part(content), 10))
}

/// The signed number that a file holds.
pub open spec fn signed_in(content: Seq<char>) -> Option<i64> {
    text::as_i64(text::signed_value(text::trimmed(content)))
}

/// The active value of a file that lists its options: the one in brackets. A
/// file without brackets holds just its value.
pub open spec fn active_value(content: Seq<char>) -> Seq<char> {
    let t = text::trimmed(content);
    match text::first_of(t, '[') {
        None => t,
        Some(open) => match text::first_of(t.skip(open), ']') {
            None => t,
            Some(close) => text::trimmed(t.subrange(open + 1, open + close)),
        },
    }
}

/// What reading a number from a parameter file gives.
pub open spec fn spec_read_u64(
    files: Seq<SysfsFile>,
    param: Seq<char>,
) -> Result<u64, Seq<char>> {
    match content_of(files, param) {
        Err(e) => Err(e),
        Ok(content) => match number_in(content) {
            Some(n) => Ok(n),
            None => Err("cannot parse '"@ + text::trimmed(content) + "' as u64"@),
        },
    }
}

/// What reading a signed number from a parameter file gives.
pub open spec fn spec_read_i64(
    files: Seq<SysfsFile>,
    param: Seq<char>,
) -> Result<i64, Seq<char>> {
    match content_of(files, param) {
        Err(e) => Err(e),
        Ok(content) => match signed_in(content) {
            Some(n) => Ok(n),
            None => Err("cannot parse '"@ + text::trimmed(content) + "' as i64"@),
        },
    }
}

/// What reading the active value of a parameter file gives.
pub open spec fn spec_read_string(
    files: Seq<SysfsFile>,
    param: Seq<char>,
) -> Result<Seq<char>, Seq<char>> {
    match content_of(files, param) {
        Err(e) => Err(e),
        Ok(content) => Ok(active_value(content)),
    }
}

/// The value, or a default in place of an error.
pub open spec fn ok_or<T, E>(r: Result<T, E>, default: T) -> T {
    match r {
        Ok(v) => v,
        Err(_) => default,
    }
}

/// Whether an error is the given failure on the given parameter.
pub open spec fn is_param_error(
    e: ZramdedupError,
    base: Seq<char>,
    param: Seq<char>,
    source: Seq<char>,
) -> bool {
    e matches ZramdedupError::Sysfs { path, source: s } && path@ == spec_param_path(base, param)
        && s@ == source
}

fn unparsable(content: &[char], kind: &str) -> (r: String)
    ensures
        r@ == "cannot parse '"@ + text::trimmed(content@) + "' as "@ + kind@,
{
    let trimmed = string_of(trim(content));
    let mut out = String::from_str("cannot parse '");
    out.append(trimmed.as_str());
    out.append("' as ");
    out.append(kind);
    out
}

// ---------------------------------------------------------------------------
// Safe ranges
// ---------------------------------------------------------------------------

/// The safe range of a tunable.
pub open spec fn safe_range(param: Seq<char>) -> Option<(u64, u64)> {
    if param == "run"@ {
        Some((0, 2))
    } else if param == "pages_to_scan"@ {
        Some((100, 30000))
    } else if param == "sleep_millisecs"@ {
        Some((5, 10000))
    } else if param == "max_page_sharing"@ {
        Some((16, 4096))
    } else if param == "advisor_target_scan_time"@ {
        Some((10, 3600))
    } else if param == "advisor_max_cpu"@ {
        Some((10, 100))
    } else if param == "advisor_min_pages_to_scan"@ {
        Some((100, 5000))
    } else if param == "advisor_max_pages_to_scan"@ {
        Some((1000, 100000))
    } else {
        None
    }
}

/// The value nearest to `value` in the range.
pub open spec fn clamped(value: u64, range: Option<(u64, u64)>) -> u64 {
    match range {
        None => value,
        Some((min, max)) => if value < min {
            min
        } else if value > max {
            max
        } else {
            value
        },
    }
}

fn range_of(param: &str) -> (r: Option<(u64, u64)>)
    ensures
        r == safe_range(param@),
{
    if same_text(param, "run") {
        Some((0, 2))
    } else if same_text(param, "pages_to_scan") {
        Some((100, 30000))
    } else if same_text(param, "sleep_millisecs") {
        Some((5, 10000))
    } else if same_text(param, "max_page_sharing") {
        Some((16, 4096))
    } else if same_text(param, "advisor_target_scan_time") {
        Some((10, 3600))
    } else if same_text(param, "advisor_max_cpu") {
        Some((10, 100))
    } else if same_text(param, "advisor_min_pages_to_scan") {
        Some((100, 5000))
    } else if same_text(param, "advisor_max_pages_to_scan") {
        Some((1000, 100000))
    } else {
        None
    }
}

// ---------------------------------------------------------------------------
// Controller
// ---------------------------------------------------------------------------

/// KSM sysfs controller with validated writes and rate limiting.
#[derive(Debug)]
pub struct KsmController {
    pub base_path: String,
    /// When a parameter was last updated.
    pub last_update: u64,
    pub dry_run: bool,
}

/// What becomes of a write.
#[derive(Debug)]
pub enum WriteDecision {
    /// Too soon after the last update: nothing is written.
    RateLimited,
    /// Dry run: nothing is written.
    DryRun,
    /// Write `value` to the file at `path`.
    Write { path: String, value: String },
}

/// A parameter write that is part of a sequence.
#[derive(Debug)]
pub struct ParamWrite {
    pub param: String,
    pub value: String,
    /// Whether the sequence ends if this write fails.
    pub required: bool,
}

/// The contents of a parameter write.
#[verifier::ext_equal]
pub struct ParamWriteView {
    pub param: Seq<char>,
    pub value: Seq<char>,
    pub required: bool,
}

impl View for ParamWrite {
    type V = ParamWriteView;

    open spec fn view(&self) -> ParamWriteView {
        ParamWriteView { param: self.param@, value: self.value@, required: self.required }
    }
}

/// The contents of a sequence of writes.
pub open spec fn write_views(writes: Seq<ParamWrite>) -> Seq<ParamWriteView> {
    writes.map_values(|w: ParamWrite| w@)
}

/// Whether the first writes of a sequence went like that: each was made once, in
/// order, and none of them ended the sequence.
pub open spec fn went_on<W, MakeFn: Fn(W, &ParamWrite) -> (Result<(), ZramdedupError>, W)>(
    writes: Seq<ParamWrite>,
    make: MakeFn,
    outcomes: Seq<Result<(), ZramdedupError>>,
    worlds: Seq<W>,
    from: W,
    to: W,
) -> bool {
    &&& outcomes.len() <= writes.len()
    &&& outside::is_path(worlds, outcomes.len(), from, to)
    &&& forall|i: int|
        0 <= i < outcomes.len() ==> {
            &&& call_ensures(
                make,
                (worlds[i], &writes[i]),
                (#[trigger] outcomes[i], worlds[i + 1]),
            )
            &&& writes[i].required ==> outcomes[i] is Ok
        }
}

/// Makes writes in order, each once. One that is required ends the rest where it
/// fails, with its error; the failure of another one is passed over.
pub fn write_all<W, MakeFn: Fn(W, &ParamWrite) -> (Result<(), ZramdedupError>, W)>(
    writes: &Vec<ParamWrite>,
    world: W,
    make: &MakeFn,
) -> (r: (Result<(), ZramdedupError>, W))
    requires
        forall|outcomes: Seq<Result<(), ZramdedupError>>, worlds: Seq<W>, last: W|
            #[trigger] went_on(writes@, *make, outcomes, worlds, world, last) && outcomes.len()
                < writes@.len() ==> call_requires(make, (last, &writes@[outcomes.len() as int])),
    ensures
        exists|outcomes: Seq<Result<(), ZramdedupError>>, worlds: Seq<W>, last: W|
            {
                &&& #[trigger] went_on(writes@, *make, outcomes, worlds, world, last)
                &&& match r.0 {
                    Ok(_) => outcomes.len() == writes@.len() && r.1 == last,
                    Err(_) => {
                        &&& outcomes.len() < writes@.len()
                        &&& writes@[outcomes.len() as int].required
                        &&& call_ensures(make, (last, &writes@[outcomes.len() as int]), r)
                    },
                }
            },
{
    let ghost mut outcomes: Seq<Result<(), ZramdedupError>> = Seq::empty();
    let ghost mut worlds: Seq<W> = seq![world];
    let mut now: W = world;
    let mut i: usize = 0;
    while i < writes.len()
        invariant
            i <= writes.len(),
            outcomes.len() == i,
            went_on(writes@, *make, outcomes, worlds, world, now),
            forall|outcomes: Seq<Result<(), ZramdedupError>>, worlds: Seq<W>, last: W|
                #[trigger] went_on(writes@, *make, outcomes, worlds, world, last)
                    && outcomes.len() < writes@.len() ==> call_requires(
                    make,
                    (last, &writes@[outcomes.len() as int]),
                ),
        decreases writes.len() - i,
    {
        let write = &writes[i];
        let (outcome, next) = make(now, write);
        if write.required && outcome.is_err() {
            return (outcome, next);
        }
        proof {
            let done = outcomes;
            let seen = worlds;
            outcomes = outcomes.push(outcome);
            worlds = worlds.push(next);
            assert forall|k: int| 0 <= k < outcomes.len() implies {
                &&& call_ensures(
                    make,
                    (worlds[k], &writes@[k]),
                    (#[trigger] outcomes[k], worlds[k + 1]),
                )
                &&& writes@[k].required ==> outcomes[k] is Ok
            } by {
                if k < done.len() {
                    assert(outcomes[k] == done[k]);
                    assert(worlds[k] == seen[k] && worlds[k + 1] == seen[k + 1]);
                }
            }
        }
        now = next;
        i += 1;
    }
    (Ok(()), now)
}

/// The write of a number, moved into its safe range.
pub open spec fn number_write(param: Seq<char>, value: u64, required: bool) -> ParamWriteView {
    ParamWriteView {
        param,
        value: text::decimal(clamped(value, safe_range(param)) as nat),
        required,
    }
}

/// The write of a text.
pub open spec fn text_write(param: Seq<char>, value: Seq<char>, required: bool) -> ParamWriteView {
    ParamWriteView { param, value, required }
}

impl ParamWrite {
    /// The write of a number, moved into its safe range.
    pub fn number(param: &str, value: u64, required: bool) -> (r: Self)
        ensures
            r@ == number_write(param@, value, required),
    {
        let safe: u64 = KsmController::clamp_value(param, value);
        ParamWrite { param: String::from_str(param), value: decimal_text(safe), required }
    }

    /// The write of a text.
    pub fn text(param: &str, value: &str, required: bool) -> (r: Self)
        ensures
            r@ == text_write(param@, value@, required),
    {
        ParamWrite { param: String::from_str(param), value: String::from_str(value), required }
    }
}

/// The parameter writes that bring back a configuration. While the scan-time
/// advisor is active the kernel refuses writes to pages_to_scan, so another
/// advisor mode is set first and the wanted one at the end.
pub open spec fn restore_writes(config: KsmConfigView) -> Seq<ParamWriteView> {
    let first_mode = if config.advisor_mode != "scan-time"@ {
        config.advisor_mode
    } else {
        "none"@
    };
    seq![
        text_write("advisor_mode"@, first_mode, false),
        number_write("run"@, config.run, true),
        number_write("pages_to_scan"@, config.pages_to_scan, true),
        number_write("sleep_millisecs"@, config.sleep_millisecs, true),
        number_write("max_page_sharing"@, config.max_page_sharing, true),
        number_write("smart_scan"@, config.smart_scan, false),
        number_write("advisor_min_pages_to_scan"@, config.advisor_min_pages_to_scan, false),
        number_write("advisor_max_pages_to_scan"@, config.advisor_max_pages_to_scan, false),
        text_write("advisor_mode"@, config.advisor_mode, false),
        number_write("advisor_target_scan_time"@, config.advisor_target_scan_time, false),
        number_write("advisor_max_cpu"@, config.advisor_max_cpu, false),
    ]
}

impl KsmController {
    /// What a write of `value` to `param` at time `now` comes to.
    pub open spec fn decides(
        &self,
        now: u64,
        param: Seq<char>,
        value: Seq<char>,
        decision: WriteDecision,
    ) -> bool {
        if state::spec_elapsed(self.last_update, now) < MIN_UPDATE_INTERVAL_MS {
            decision is RateLimited
        } else if self.dry_run {
            decision is DryRun
        } else {
            decision matches WriteDecision::Write { path, value: v } && path@ == spec_param_path(
                self.base_path@,
                param,
            ) && v@ == value
        }
    }

    /// Create a new controller pointing at the KSM sysfs directory, which has to
    /// exist.
    pub fn new(ksm_path: &str, exists: bool, now: u64) -> (r: Result<Self, ZramdedupError>)
        requires
            now >= MIN_UPDATE_INTERVAL_MS,
        ensures
            match r {
                Ok(c) => {
                    &&& exists
                    &&& c.base_path@ == ksm_path@
                    &&& c.last_update == now - MIN_UPDATE_INTERVAL_MS
                    &&& !c.dry_run
                },
                Err(e) => {
                    &&& !exists
                    &&& e matches ZramdedupError::Sysfs { path, source }
                    &&& path@ == ksm_path@
                    &&& source@ == "KSM path not found"@
                },
            },
    {
        if !exists {
            return Err(
                ZramdedupError::Sysfs {
                    path: String::from_str(ksm_path),
                    source: String::from_str("KSM path not found"),
                },
            );
        }
        Ok(
            KsmController {
                base_path: String::from_str(ksm_path),
                last_update: now - MIN_UPDATE_INTERVAL_MS,
                dry_run: false,
            },
        )
    }

    /// Enable dry-run mode (log writes without executing).
    pub fn set_dry_run(&mut self, dry_run: bool)
        ensures
            final(self).dry_run == dry_run,
            final(self).base_path == old(self).base_path,
            final(self).last_update == old(self).last_update,
    {
        self.dry_run = dry_run;
    }

    fn failure(&self, param: &str, source: &str) -> (r: ZramdedupError)
        ensures
            is_param_error(r, self.base_path@, param@, source@),
    {
        ZramdedupError::Sysfs {
            path: param_path(self.base_path.as_str(), param),
            source: String::from_str(source),
        }
    }

    /// Read a number. Enum-style values such as "[1] 0" give the one in
    /// brackets.
    pub fn read_u64(&self, files: &Vec<SysfsFile>, param: &str) -> (r: Result<u64, ZramdedupError>)
        ensures
            match (r, spec_read_u64(files@, param@)) {
                (Ok(a), Ok(b)) => a == b,
                (Err(e), Err(source)) => is_param_error(e, self.base_path@, param@, source),
                _ => false,
            },
    {
        match find_file(files, param) {
            Err(e) => Err(self.failure(param, e)),
            Ok(content) => {
                let chars = chars_of(content);
                let trimmed = trim(chars.as_slice());
                let pieces = split_char(strip_leading(trimmed, '['), ']');
                assert(text::views(pieces@)[0] == pieces@[0]@);
                match parse_u64(pieces[0]) {
                    Some(n) => Ok(n),
                    None => {
                        let source = unparsable(chars.as_slice(), "u64");
                        proof {
                            reveal_strlit("' as u64");
                            reveal_strlit("' as ");
                            reveal_strlit("u64");
                            assert("' as u64"@ =~= "' as "@ + "u64"@);
                            assert(source@ =~= "cannot parse '"@ + text::trimmed(content@)
                                + "' as u64"@);
                        }
                        Err(self.failure(param, source.as_str()))
                    },
                }
            },
        }
    }

    /// Read a signed number.
    pub fn read_i64(&self, files: &Vec<SysfsFile>, param: &str) -> (r: Result<i64, ZramdedupError>)
        ensures
            match (r, spec_read_i64(files@, param@)) {
                (Ok(a), Ok(b)) => a == b,
                (Err(e), Err(source)) => is_param_error(e, self.base_path@, param@, source),
                _ => false,
            },
    {
        match find_file(files, param) {
            Err(e) => Err(self.failure(param, e)),
            Ok(content) => {
                let chars = chars_of(content);
                match parse_i64(trim(chars.as_slice())) {
                    Some(n) => Ok(n),
                    None => {
                        let source = unparsable(chars.as_slice(), "i64");
                        proof {
                            reveal_strlit("' as i64");
                            reveal_strlit("' as ");
                            reveal_strlit("i64");
                            assert("' as i64"@ =~= "' as "@ + "i64"@);
                            assert(source@ =~= "cannot parse '"@ + text::trimmed(content@)
                                + "' as i64"@);
                        }
                        Err(self.failure(param, source.as_str()))
                    },
                }
            },
        }
    }

    /// Read a text. The kernel lists the options as "[none] scan-time" or
    /// "none [scan-time]"; the active one is in brackets.
    pub fn read_string(&self, files: &Vec<SysfsFile>, param: &str) -> (r: Result<
        String,
        ZramdedupError,
    >)
        ensures
            match (r, spec_read_string(files@, param@)) {
                (Ok(a), Ok(b)) => a@ == b,
                (Err(e), Err(source)) => is_param_error(e, self.base_path@, param@, source),
                _ => false,
            },
    {
        let content = match find_file(files, param) {
            Err(e) => {
                return Err(self.failure(param, e));
            },
            Ok(content) => content,
        };
        let chars = chars_of(content);
        let trimmed = trim(chars.as_slice());
        if let Some(open) = find_char(trimmed, '[') {
            let rest = part(trimmed, open, trimmed.len());
            assert(rest@ =~= trimmed@.skip(open as int));
            if let Some(close) = find_char(rest, ']') {
                assert(close > 0);
                let active = part(trimmed, open + 1, open + close);
                return Ok(string_of(trim(active)));
            }
        }
        Ok(string_of(trimmed))
    }

    fn read_u64_or(&self, files: &Vec<SysfsFile>, param: &str, default: u64) -> (r: u64)
        ensures
            r == ok_or(spec_read_u64(files@, param@), default),
    {
        match self.read_u64(files, param) {
            Ok(n) => n,
            Err(_) => default,
        }
    }
}

/// The statistics files that have to be readable, in the order in which they
/// are read.
pub open spec fn stats_params() -> Seq<Seq<char>> {
    seq![
        "pages_shared"@,
        "pages_sharing"@,
        "pages_unshared"@,
        "pages_volatile"@,
        "pages_scanned"@,
        "pages_skipped"@,
        "full_scans"@,
    ]
}

/// The configuration files that have to be readable, in the order in which they
/// are read.
pub open spec fn config_params() -> Seq<Seq<char>> {
    seq!["run"@, "pages_to_scan"@, "sleep_millisecs"@, "max_page_sharing"@]
}

/// The first parameter that cannot be read as a number, with the reason.
pub open spec fn first_failure(
    files: Seq<SysfsFile>,
    params: Seq<Seq<char>>,
) -> Option<(Seq<char>, Seq<char>)>
    decreases params.len(),
{
    if params.len() == 0 {
        None
    } else {
        match spec_read_u64(files, params[0]) {
            Err(source) => Some((params[0], source)),
            Ok(_) => first_failure(files, params.skip(1)),
        }
    }
}

/// The number in a parameter file that can be read.
pub open spec fn value_of(files: Seq<SysfsFile>, param: Seq<char>) -> u64 {
    ok_or(spec_read_u64(files, param), 0)
}

/// Whether all the statistics that have to be there can be read.
pub open spec fn stats_readable(files: Seq<SysfsFile>) -> bool {
    first_failure(files, stats_params()) is None && spec_read_i64(files, "general_profit"@) is Ok
}

/// The statistics that the files hold.
pub open spec fn stats_in(files: Seq<SysfsFile>) -> KsmStats {
    KsmStats {
        pages_shared: value_of(files, "pages_shared"@),
        pages_sharing: value_of(files, "pages_sharing"@),
        pages_unshared: value_of(files, "pages_unshared"@),
        pages_volatile: value_of(files, "pages_volatile"@),
        pages_scanned: value_of(files, "pages_scanned"@),
        pages_skipped: value_of(files, "pages_skipped"@),
        full_scans: value_of(files, "full_scans"@),
        general_profit: ok_or(spec_read_i64(files, "general_profit"@), 0),
        ksm_zero_pages: value_of(files, "ksm_zero_pages"@),
        stable_node_chains: value_of(files, "stable_node_chains"@),
        stable_node_dups: value_of(files, "stable_node_dups"@),
    }
}

impl KsmController {
    /// Whether reading the statistics fails with this error: it is about the
    /// first file that cannot be read.
    pub open spec fn stats_error(&self, files: Seq<SysfsFile>, e: ZramdedupError) -> bool {
        match first_failure(files, stats_params()) {
            Some((param, source)) => is_param_error(e, self.base_path@, param, source),
            None => {
                &&& spec_read_i64(files, "general_profit"@) matches Err(source)
                &&& is_param_error(e, self.base_path@, "general_profit"@, source)
            },
        }
    }

    fn read_all(&self, files: &Vec<SysfsFile>, params: &Vec<&str>) -> (r: Result<
        Vec<u64>,
        ZramdedupError,
    >)
        ensures
            match r {
                Ok(values) => {
                    &&& first_failure(files@, str_views(params@)) is None
                    &&& values@.len() == params@.len()
                    &&& forall|i: int|
                        0 <= i < params@.len() ==> #[trigger] values@[i] == value_of(
                            files@,
                            params@[i]@,
                        )
                },
                Err(e) => {
                    &&& first_failure(files@, str_views(params@)) matches Some((param, source))
                    &&& is_param_error(e, self.base_path@, param, source)
                },
            },
    {
        let mut values: Vec<u64> = Vec::new();
        let mut i: usize = 0;
        let ghost all = str_views(params@);
        assert(all.skip(0) =~= all);
        while i < params.len()
            invariant
                i <= params.len(),
                all == str_views(params@),
                first_failure(files@, all) == first_failure(files@, all.skip(i as int)),
                values@.len() == i,
                forall|k: int|
                    0 <= k < i ==> #[trigger] values@[k] == value_of(files@, params@[k]@),
            decreases params.len() - i,
        {
            assert(all.skip(i as int)[0] == params@[i as int]@);
            assert(all.skip(i as int).skip(1) =~= all.skip(i + 1));
            match self.read_u64(files, params[i]) {
                Ok(n) => {
                    values.push(n);
                },
                Err(e) => {
                    return Err(e);
                },
            }
            i += 1;
        }
        Ok(values)
    }

    /// Read all KSM statistics. The last three files are missing on older
    /// kernels and count as zero then.
    pub fn read_stats(&self, files: &Vec<SysfsFile>) -> (r: Result<KsmStats, ZramdedupError>)
        ensures
            match r {
                Ok(stats) => stats_readable(files@) && stats == stats_in(files@),
                Err(e) => self.stats_error(files@, e),
            },
    {
        let params: Vec<&str> = vec![
            "pages_shared",
            "pages_sharing",
            "pages_unshared",
            "pages_volatile",
            "pages_scanned",
            "pages_skipped",
            "full_scans",
        ];
        assert(str_views(params@) =~= stats_params());
        let values = match self.read_all(files, &params) {
            Ok(values) => values,
            Err(e) => {
                return Err(e);
            },
        };
        let general_profit: i64 = match self.read_i64(files, "general_profit") {
            Ok(n) => n,
            Err(e) => {
                return Err(e);
            },
        };
        Ok(
            KsmStats {
                pages_shared: values[0],
                pages_sharing: values[1],
                pages_unshared: values[2],
                pages_volatile: values[3],
                pages_scanned: values[4],
                pages_skipped: values[5],
                full_scans: values[6],
                general_profit,
                ksm_zero_pages: self.read_u64_or(files, "ksm_zero_pages", 0),
                stable_node_chains: self.read_u64_or(files, "stable_node_chains", 0),
                stable_node_dups: self.read_u64_or(files, "stable_node_dups", 0),
            },
        )
    }

    /// Read all KSM configuration parameters. What older kernels do not have
    /// counts as the kernel's own default.
    pub fn read_config(&self, files: &Vec<SysfsFile>) -> (r: Result<KsmConfig, ZramdedupError>)
        ensures
            match r {
                Ok(config) => {
                    &&& first_failure(files@, config_params()) is None
                    &&& config@ == config_in(files@)
                },
                Err(e) => {
                    &&& first_failure(files@, config_params()) matches Some((param, source))
                    &&& is_param_error(e, self.base_path@, param, source)
                },
            },
    {
        let params: Vec<&str> = vec!["run", "pages_to_scan", "sleep_millisecs", "max_page_sharing"];
        assert(str_views(params@) =~= config_params());
        let values = match self.read_all(files, &params) {
            Ok(values) => values,
            Err(e) => {
                return Err(e);
            },
        };
        let advisor_mode = match self.read_string(files, "advisor_mode") {
            Ok(mode) => mode,
            Err(_) => String::from_str(""),
        };
        let config = KsmConfig {
            run: values[0],
            pages_to_scan: values[1],
            sleep_millisecs: values[2],
            max_page_sharing: values[3],
            smart_scan: self.read_u64_or(files, "smart_scan", 1),
            advisor_mode,
            advisor_target_scan_time: self.read_u64_or(files, "advisor_target_scan_time", 200),
            advisor_max_cpu: self.read_u64_or(files, "advisor_max_cpu", 70),
            advisor_min_pages_to_scan: self.read_u64_or(files, "advisor_min_pages_to_scan", 500),
            advisor_max_pages_to_scan: self.read_u64_or(files, "advisor_max_pages_to_scan", 30000),
        };
        Ok(config)
    }
}

/// The contents of a sequence of texts.
pub open spec fn str_views(texts: Seq<&str>) -> Seq<Seq<char>> {
    texts.map_values(|t: &str| t@)
}

/// The configuration that the files hold.
pub open spec fn config_in(files: Seq<SysfsFile>) -> KsmConfigView {
    KsmConfigView {
        run: value_of(files, "run"@),
        pages_to_scan: value_of(files, "pages_to_scan"@),
        sleep_millisecs: value_of(files, "sleep_millisecs"@),
        max_page_sharing: value_of(files, "max_page_sharing"@),
        smart_scan: ok_or(spec_read_u64(files, "smart_scan"@), 1),
        advisor_mode: ok_or(spec_read_string(files, "advisor_mode"@), ""@),
        advisor_target_scan_time: ok_or(
            spec_read_u64(files, "advisor_target_scan_time"@),
            200,
        ),
        advisor_max_cpu: ok_or(spec_read_u64(files, "advisor_max_cpu"@), 70),
        advisor_min_pages_to_scan: ok_or(
            spec_read_u64(files, "advisor_min_pages_to_scan"@),
            500,
        ),
        advisor_max_pages_to_scan: ok_or(
            spec_read_u64(files, "advisor_max_pages_to_scan"@),
            30000,
        ),
    }
}

impl KsmController {
    /// Snapshot the current KSM configuration, taken at `unix_secs` seconds
    /// since the epoch.
    pub fn snapshot(&self, files: &Vec<SysfsFile>, unix_secs: u64) -> (r: Result<
        KsmSnapshot,
        ZramdedupError,
    >)
        ensures
            match r {
                Ok(snapshot) => {
                    &&& first_failure(files@, config_params()) is None
                    &&& snapshot.config@ == config_in(files@)
                    &&& snapshot.timestamp@ == text::decimal(unix_secs as nat)
                },
                Err(e) => {
                    &&& first_failure(files@, config_params()) matches Some((param, source))
                    &&& is_param_error(e, self.base_path@, param, source)
                },
            },
    {
        match self.read_config(files) {
            Ok(config) => Ok(KsmSnapshot { config, timestamp: chrono_now(unix_secs) }),
            Err(e) => Err(e),
        }
    }

    /// The writes that restore a previously saved snapshot, in order.
    pub fn restore(&self, snapshot: &KsmSnapshot) -> (r: Vec<ParamWrite>)
        ensures
            write_views(r@) == restore_writes(snapshot.config@),
    {
        let config = &snapshot.config;
        let first_mode = if same_text(config.advisor_mode.as_str(), "scan-time") {
            "none"
        } else {
            config.advisor_mode.as_str()
        };
        let writes = vec![
            ParamWrite::text("advisor_mode", first_mode, false),
            ParamWrite::number("run", config.run, true),
            ParamWrite::number("pages_to_scan", config.pages_to_scan, true),
            ParamWrite::number("sleep_millisecs", config.sleep_millisecs, true),
            ParamWrite::number("max_page_sharing", config.max_page_sharing, true),
            ParamWrite::number("smart_scan", config.smart_scan, false),
            ParamWrite::number(
                "advisor_min_pages_to_scan",
                config.advisor_min_pages_to_scan,
                false,
            ),
            ParamWrite::number(
                "advisor_max_pages_to_scan",
                config.advisor_max_pages_to_scan,
                false,
            ),
            ParamWrite::text("advisor_mode", config.advisor_mode.as_str(), false),
            ParamWrite::number("advisor_target_scan_time", config.advisor_target_scan_time, false),
            ParamWrite::number("advisor_max_cpu", config.advisor_max_cpu, false),
        ];
        assert(write_views(writes@) =~= restore_writes(snapshot.config@));
        writes
    }

    /// Set KSM run mode (0=stop, 1=run, 2=unmerge).
    pub fn set_run(&self, now: u64, value: u64) -> (r: WriteDecision)
        ensures
            self.decides(now, "run"@, number_write("run"@, value, false).value, r),
    {
        self.write_validated(now, "run", value)
    }

    pub fn set_pages_to_scan(&self, now: u64, value: u64) -> (r: WriteDecision)
        ensures
            self.decides(
                now,
                "pages_to_scan"@,
                number_write("pages_to_scan"@, value, false).value,
                r,
            ),
    {
        self.write_validated(now, "pages_to_scan", value)
    }

    pub fn set_sleep_millisecs(&self, now: u64, value: u64) -> (r: WriteDecision)
        ensures
            self.decides(
                now,
                "sleep_millisecs"@,
                number_write("sleep_millisecs"@, value, false).value,
                r,
            ),
    {
        self.write_validated(now, "sleep_millisecs", value)
    }

    pub fn set_max_page_sharing(&self, now: u64, value: u64) -> (r: WriteDecision)
        ensures
            self.decides(
                now,
                "max_page_sharing"@,
                number_write("max_page_sharing"@, value, false).value,
                r,
            ),
    {
        self.write_validated(now, "max_page_sharing", value)
    }

    pub fn set_advisor_mode(&self, now: u64, mode: &str) -> (r: WriteDecision)
        ensures
            self.decides(now, "advisor_mode"@, mode@, r),
    {
        self.write_param(now, "advisor_mode", mode)
    }

    pub fn set_advisor_target_scan_time(&self, now: u64, value: u64) -> (r: WriteDecision)
        ensures
            self.decides(
                now,
                "advisor_target_scan_time"@,
                number_write("advisor_target_scan_time"@, value, false).value,
                r,
            ),
    {
        self.write_validated(now, "advisor_target_scan_time", value)
    }

    pub fn set_advisor_max_cpu(&self, now: u64, value: u64) -> (r: WriteDecision)
        ensures
            self.decides(
                now,
                "advisor_max_cpu"@,
                number_write("advisor_max_cpu"@, value, false).value,
                r,
            ),
    {
        self.write_validated(now, "advisor_max_cpu", value)
    }

    /// Decides the write of a number, moved into its safe range.
    pub fn write_validated(&self, now: u64, param: &str, value: u64) -> (r: WriteDecision)
        ensures
            self.decides(now, param@, number_write(param@, value, false).value, r),
    {
        let safe: u64 = Self::clamp_value(param, value);
        self.write_param(now, param, decimal_text(safe).as_str())
    }

    /// Decides the write of a parameter at time `now`.
    pub fn write_param(&self, now: u64, param: &str, value: &str) -> (r: WriteDecision)
        ensures
            self.decides(now, param@, value@, r),
    {
        if state::elapsed(self.last_update, now) < MIN_UPDATE_INTERVAL_MS {
            return WriteDecision::RateLimited;
        }
        if self.dry_run {
            return WriteDecision::DryRun;
        }
        WriteDecision::Write {
            path: param_path(self.base_path.as_str(), param),
            value: String::from_str(value),
        }
    }

    /// What a write that was carried out comes to, from how it went.
    pub fn write_outcome(&self, param: &str, result: Result<(), String>) -> (r: Result<
        (),
        ZramdedupError,
    >)
        ensures
            match (result, r) {
                (Ok(_), Ok(_)) => true,
                (Err(source), Err(e)) => is_param_error(e, self.base_path@, param@, source@),
                _ => false,
            },
    {
        match result {
            Ok(_) => Ok(()),
            Err(source) => Err(self.failure(param, source.as_str())),
        }
    }

    /// Whether a write took effect, from what the file holds afterwards. The
    /// kernel may put brackets around the value.
    pub fn write_verified(value: &str, readback: &str) -> (r: bool)
        ensures
            r == text::contains_text(text::trimmed(readback@), value@),
    {
        text_contains(trim_text(readback).as_str(), value)
    }

    /// Moves a value into the safe range of its parameter; a parameter without
    /// one takes any value.
    pub fn clamp_value(param: &str, value: u64) -> (r: u64)
        ensures
            r == clamped(value, safe_range(param@)),
    {
        match range_of(param) {
            None => value,
            Some((min, max)) => if value < min {
                min
            } else if value > max {
                max
            } else {
                value
            },
        }
    }

    /// All files that could be read, with their trimmed contents (for
    /// diagnostics).
    pub fn read_all_raw(&self, files: &Vec<SysfsFile>) -> (r: Vec<(String, String)>)
        ensures
            pair_views(r@) == readable(files@),
    {
        let mut out: Vec<(String, String)> = Vec::new();
        let mut i: usize = 0;
        assert(files@.take(0) =~= Seq::<SysfsFile>::empty());
        assert(pair_views(out@) =~= Seq::empty());
        while i < files.len()
            invariant
                i <= files.len(),
                pair_views(out@) == readable(files@.take(i as int)),
            decreases files.len() - i,
        {
            assert(files@.take(i + 1).drop_last() =~= files@.take(i as int));
            if let Ok(content) = &files[i].content {
                let name = String::from_str(files[i].name.as_str());
                let value = trim_text(content.as_str());
                let ghost before = out@;
                out.push((name, value));
                assert(pair_views(out@) =~= pair_views(before).push((name@, value@)));
            }
            i += 1;
        }
        assert(files@.take(i as int) =~= files@);
        out
    }
}

/// The contents of a sequence of pairs of texts.
pub open spec fn pair_views(pairs: Seq<(String, String)>) -> Seq<(Seq<char>, Seq<char>)> {
    pairs.map_values(|p: (String, String)| (p.0@, p.1@))
}

/// The files that could be read, with their trimmed contents.
pub open spec fn readable(files: Seq<SysfsFile>) -> Seq<(Seq<char>, Seq<char>)>
    decreases files.len(),
{
    if files.len() == 0 {
        Seq::empty()
    } else {
        let before = readable(files.drop_last());
        match files.last().content {
            Ok(content) => before.push((files.last().name@, text::trimmed(content@))),
            Err(_) => before,
        }
    }
}

/// A plain timestamp: the seconds since the epoch, in decimal.
pub fn chrono_now(unix_secs: u64) -> (r: String)
    ensures
        r@ == text::decimal(unix_secs as nat),
{
    decimal_text(unix_secs)
}

// ---------------------------------------------------------------------------
// Laws
// ---------------------------------------------------------------------------

/// A number is only ever written inside the safe range of its parameter, and a
/// safe number is written as it is.
pub proof fn law_numbers_are_written_in_range(param: Seq<char>, value: u64)
    ensures
        safe_range(param) matches Some((min, max)) ==> {
            &&& min <= clamped(value, safe_range(param)) <= max
            &&& min <= value <= max ==> clamped(value, safe_range(param)) == value
        },
{
}

/// In dry-run mode no decision is a write.
pub proof fn law_dry_run_never_writes(
    c: KsmController,
    now: u64,
    param: Seq<char>,
    value: Seq<char>,
    decision: WriteDecision,
)
    requires
        c.dry_run,
        c.decides(now, param, value, decision),
    ensures
        !(decision is Write),
{
}

/// A parameter file that holds just a decimal number is read as that number.
pub proof fn law_written_number_is_read_back(n: u64)
    ensures
        number_in(text::decimal(n as nat)) == Some(n),
{
    let d = text::decimal(n as nat);
    text::law_decimal_round_trip(n);
    text::lemma_decimal_digits(n as nat);
    assert(0x30 <= d[0] as u32 <= 0x39);
    let p = text::only(']');
    assert forall|i: int| 0 <= i < d.len() implies !p(d[i]) by {
        assert(0x30 <= d[i] as u32 <= 0x39);
    }
    text::lemma_split_whole(d, p);
}

/// The directory after the writes were made, in order.
pub open spec fn after_writes(
    dir: Map<Seq<char>, Seq<char>>,
    writes: Seq<ParamWriteView>,
) -> Map<Seq<char>, Seq<char>>
    decreases writes.len(),
{
    if writes.len() == 0 {
        dir
    } else {
        after_writes(dir, writes.drop_last()).insert(writes.last().param, writes.last().value)
    }
}

/// Making a sequence of writes leaves the directory as the list of them says, with
/// nothing written before, between or after: if a write that works puts its value
/// into its file and touches no other, then writes that all work lead from any
/// directory to that one.
pub proof fn law_made_writes_are_those_of_the_list<
    W,
    MakeFn: Fn(W, &ParamWrite) -> (Result<(), ZramdedupError>, W),
>(
    writes: Seq<ParamWrite>,
    make: MakeFn,
    dir: spec_fn(W) -> Map<Seq<char>, Seq<char>>,
    outcomes: Seq<Result<(), ZramdedupError>>,
    worlds: Seq<W>,
    from: W,
    to: W,
)
    requires
        forall|w: W, write: ParamWrite, r: Result<(), ZramdedupError>, v: W|
            #[trigger] call_ensures(make, (w, &write), (r, v)) && r is Ok ==> dir(v) == dir(
                w,
            ).insert(write.param@, write.value@),
        went_on(writes, make, outcomes, worlds, from, to),
        forall|i: int| 0 <= i < outcomes.len() ==> #[trigger] outcomes[i] is Ok,
    ensures
        dir(to) == after_writes(dir(from), write_views(writes).take(outcomes.len() as int)),
    decreases outcomes.len(),
{
    let n = outcomes.len() as int;
    if n > 0 {
        let front = outcomes.drop_last();
        let through = worlds.drop_last();
        assert forall|i: int| 0 <= i < front.len() implies {
            &&& call_ensures(make, (through[i], &writes[i]), (#[trigger] front[i], through[i + 1]))
            &&& front[i] is Ok
        } by {
            assert(front[i] == outcomes[i]);
        }
        law_made_writes_are_those_of_the_list(
            writes,
            make,
            dir,
            front,
            through,
            from,
            worlds[n - 1],
        );
        let made = write_views(writes).take(n);
        assert(made.drop_last() =~= write_views(writes).take(n - 1));
        assert(made.last() == writes[n - 1]@);
        assert(call_ensures(make, (worlds[n - 1], &writes[n - 1]), (outcomes[n - 1], to)));
    } else {
        assert(write_views(writes).take(0) =~= Seq::<ParamWriteView>::empty());
    }
}

/// What tells the names of the restored parameters apart: their lengths, and one
/// character where two are equally long.
pub proof fn lemma_distinct_names()
    ensures
        "run"@.len() == 3,
        "smart_scan"@.len() == 10,
        "advisor_mode"@.len() == 12,
        "pages_to_scan"@.len() == 13,
        "sleep_millisecs"@.len() == 15 && "sleep_millisecs"@[0] == 's',
        "advisor_max_cpu"@.len() == 15 && "advisor_max_cpu"@[0] == 'a',
        "max_page_sharing"@.len() == 16,
        "advisor_target_scan_time"@.len() == 24,
        "advisor_min_pages_to_scan"@.len() == 25 && "advisor_min_pages_to_scan"@[9] == 'i',
        "advisor_max_pages_to_scan"@.len() == 25 && "advisor_max_pages_to_scan"@[9] == 'a',
        "none"@ != "scan-time"@,
{
    reveal_strlit("advisor_mode");
    reveal_strlit("run");
    reveal_strlit("pages_to_scan");
    reveal_strlit("sleep_millisecs");
    reveal_strlit("max_page_sharing");
    reveal_strlit("smart_scan");
    reveal_strlit("advisor_target_scan_time");
    reveal_strlit("advisor_max_cpu");
    reveal_strlit("advisor_min_pages_to_scan");
    reveal_strlit("advisor_max_pages_to_scan");
    reveal_strlit("none");
    reveal_strlit("scan-time");
    assert("none"@.len() == 4);
    assert("scan-time"@.len() == 9);
}

/// A value that lies inside the safe range of its parameter.
pub open spec fn is_safe(param: Seq<char>, value: u64) -> bool {
    clamped(value, safe_range(param)) == value
}

/// Whether every restored number of a configuration is safe.
pub open spec fn safe_config(config: KsmConfigView) -> bool {
    &&& is_safe("run"@, config.run)
    &&& is_safe("pages_to_scan"@, config.pages_to_scan)
    &&& is_safe("sleep_millisecs"@, config.sleep_millisecs)
    &&& is_safe("max_page_sharing"@, config.max_page_sharing)
    &&& is_safe("advisor_target_scan_time"@, config.advisor_target_scan_time)
    &&& is_safe("advisor_max_cpu"@, config.advisor_max_cpu)
    &&& is_safe("advisor_min_pages_to_scan"@, config.advisor_min_pages_to_scan)
    &&& is_safe("advisor_max_pages_to_scan"@, config.advisor_max_pages_to_scan)
}

/// Whether the files hold what the directory holds.
pub open spec fn holds(files: Seq<SysfsFile>, dir: Map<Seq<char>, Seq<char>>) -> bool {
    forall|name: Seq<char>| #[trigger]
        dir.contains_key(name) ==> content_of(files, name) == Ok::<Seq<char>, Seq<char>>(dir[name])
}

/// An active value that stands alone in a file is read as it is.
proof fn lemma_active_value_alone(content: Seq<char>)
    ensures
        active_value(active_value(content)) == active_value(content),
{
    let t = text::trimmed(content);
    let mode = active_value(content);
    text::lemma_trimmed(content);
    text::lemma_first_position(t, '[');
    if let Some(open) = text::first_of(t, '[') {
        let rest = t.skip(open);
        text::lemma_first_position(rest, ']');
        if let Some(close) = text::first_of(rest, ']') {
            let inner = t.subrange(open + 1, open + close);
            text::lemma_trimmed(inner);
            assert forall|i: int| 0 <= i < mode.len() implies mode[i] != ']' by {
                assert(inner.contains(mode[i]));
                let k = choose|k: int| 0 <= k < inner.len() && inner[k] == mode[i];
                assert(rest[k + 1] == mode[i]);
            }
            text::lemma_first_position(mode, '[');
            if let Some(again) = text::first_of(mode, '[') {
                text::lemma_first_position(mode.skip(again), ']');
            }
        }
    }
}

/// Restoring brings a snapshot back, without drift: whatever happened to the
/// directory after the snapshot was taken of the files `before`, once the
/// restoring writes are made its files `after` hold the configuration of the
/// snapshot, in every field. This is promised of snapshots whose numbers are
/// safe; the others are moved into their ranges.
pub proof fn law_restore_brings_the_snapshot_back(
    before: Seq<SysfsFile>,
    dir: Map<Seq<char>, Seq<char>>,
    after: Seq<SysfsFile>,
)
    requires
        safe_config(config_in(before)),
        holds(after, after_writes(dir, restore_writes(config_in(before)))),
    ensures
        first_failure(after, config_params()) is None,
        config_in(after) == config_in(before),
{
    let config = config_in(before);
    let d = after_writes(dir, restore_writes(config));
    lemma_distinct_names();
    law_written_number_is_read_back(config.run);
    law_written_number_is_read_back(config.pages_to_scan);
    law_written_number_is_read_back(config.sleep_millisecs);
    law_written_number_is_read_back(config.max_page_sharing);
    law_written_number_is_read_back(config.smart_scan);
    law_written_number_is_read_back(config.advisor_target_scan_time);
    law_written_number_is_read_back(config.advisor_max_cpu);
    law_written_number_is_read_back(config.advisor_min_pages_to_scan);
    law_written_number_is_read_back(config.advisor_max_pages_to_scan);
    lemma_restored(dir, config);
    assert(d.contains_key("run"@));
    assert(d.contains_key("pages_to_scan"@));
    assert(d.contains_key("sleep_millisecs"@));
    assert(d.contains_key("max_page_sharing"@));
    assert(d.contains_key("smart_scan"@));
    assert(d.contains_key("advisor_mode"@));
    assert(d.contains_key("advisor_target_scan_time"@));
    assert(d.contains_key("advisor_max_cpu"@));
    assert(d.contains_key("advisor_min_pages_to_scan"@));
    assert(d.contains_key("advisor_max_pages_to_scan"@));
    match content_of(before, "advisor_mode"@) {
        Ok(content) => lemma_active_value_alone(content),
        Err(_) => {
            reveal_strlit("");
            assert(""@ =~= Seq::<char>::empty());
            text::lemma_trimmed_fixed(""@);
        },
    }
    let params = config_params();
    assert(params.skip(1)[0] == "pages_to_scan"@);
    assert(params.skip(1).skip(1)[0] == "sleep_millisecs"@);
    assert(params.skip(1).skip(1).skip(1)[0] == "max_page_sharing"@);
    reveal_with_fuel(first_failure, 5);
}

/// What the restoring writes leave in the directory.
proof fn lemma_restored(dir: Map<Seq<char>, Seq<char>>, config: KsmConfigView)
    requires
        safe_config(config),
    ensures
        ({
            let d = after_writes(dir, restore_writes(config));
            &&& d.contains_pair("run"@, text::decimal(config.run as nat))
            &&& d.contains_pair("pages_to_scan"@, text::decimal(config.pages_to_scan as nat))
            &&& d.contains_pair("sleep_millisecs"@, text::decimal(config.sleep_millisecs as nat))
            &&& d.contains_pair("max_page_sharing"@, text::decimal(config.max_page_sharing as nat))
            &&& d.contains_pair("smart_scan"@, text::decimal(config.smart_scan as nat))
            &&& d.contains_pair("advisor_mode"@, config.advisor_mode)
            &&& d.contains_pair(
                "advisor_target_scan_time"@,
                text::decimal(config.advisor_target_scan_time as nat),
            )
            &&& d.contains_pair("advisor_max_cpu"@, text::decimal(config.advisor_max_cpu as nat))
            &&& d.contains_pair(
                "advisor_min_pages_to_scan"@,
                text::decimal(config.advisor_min_pages_to_scan as nat),
            )
            &&& d.contains_pair(
                "advisor_max_pages_to_scan"@,
                text::decimal(config.advisor_max_pages_to_scan as nat),
            )
        }),
{
    let w = restore_writes(config);
    lemma_distinct_names();
    assert(w.take(11) =~= w);
    lemma_next_write(dir, w, 0);
    lemma_next_write(dir, w, 1);
    lemma_next_write(dir, w, 2);
    lemma_next_write(dir, w, 3);
    lemma_next_write(dir, w, 4);
    lemma_next_write(dir, w, 5);
    lemma_next_write(dir, w, 6);
    lemma_next_write(dir, w, 7);
    lemma_next_write(dir, w, 8);
    lemma_next_write(dir, w, 9);
    lemma_next_write(dir, w, 10);
}

/// Making one sequence of writes after another.
pub proof fn lemma_writes_in_turn(
    dir: Map<Seq<char>, Seq<char>>,
    first: Seq<ParamWriteView>,
    second: Seq<ParamWriteView>,
)
    ensures
        after_writes(dir, first + second) == after_writes(after_writes(dir, first), second),
    decreases second.len(),
{
    if second.len() == 0 {
        assert(first + second =~= first);
    } else {
        lemma_writes_in_turn(dir, first, second.drop_last());
        assert((first + second).drop_last() =~= first + second.drop_last());
    }
}

/// One write more.
pub proof fn lemma_next_write(dir: Map<Seq<char>, Seq<char>>, w: Seq<ParamWriteView>, n: int)
    requires
        0 <= n < w.len(),
    ensures
        after_writes(dir, w.take(n + 1)) == after_writes(dir, w.take(n)).insert(
            w[n].param,
            w[n].value,
        ),
{
    assert(w.take(n + 1).drop_last() =~= w.take(n));
}

/// While the restoring writes are made, pages_to_scan is only written when the
/// advisor mode is not scan-time, which is what the kernel asks for.
pub proof fn law_restore_never_fights_the_advisor(
    dir: Map<Seq<char>, Seq<char>>,
    config: KsmConfigView,
    i: int,
)
    requires
        0 <= i < restore_writes(config).len(),
        restore_writes(config)[i].param == "pages_to_scan"@,
    ensures
        after_writes(dir, restore_writes(config).take(i))["advisor_mode"@] != "scan-time"@,
{
    let w = restore_writes(config);
    lemma_distinct_names();
    assert(i == 2);
    assert(w.take(2).drop_last() =~= w.take(1));
    assert(w.take(1).drop_last() =~= w.take(0));
    reveal_with_fuel(after_writes, 3);
}

/// The safe ranges, as numbers: what is written of a value that is out of range is the
/// nearest value in it.
pub proof fn law_safe_ranges(value: u64, param: Seq<char>)
    ensures
        number_write("run"@, value, false).value == text::decimal(nearest(value, 0, 2)),
        number_write("pages_to_scan"@, value, false).value == text::decimal(
            nearest(value, 100, 30000),
        ),
        number_write("sleep_millisecs"@, value, false).value == text::decimal(
            nearest(value, 5, 10000),
        ),
        number_write("max_page_sharing"@, value, false).value == text::decimal(
            nearest(value, 16, 4096),
        ),
        number_write("advisor_target_scan_time"@, value, false).value == text::decimal(
            nearest(value, 10, 3600),
        ),
        number_write("advisor_max_cpu"@, value, false).value == text::decimal(
            nearest(value, 10, 100),
        ),
        number_write("advisor_min_pages_to_scan"@, value, false).value == text::decimal(
            nearest(value, 100, 5000),
        ),
        number_write("advisor_max_pages_to_scan"@, value, false).value == text::decimal(
            nearest(value, 1000, 100000),
        ),
        number_write("smart_scan"@, value, false).value == text::decimal(value as nat),
        number_write(param, value, false).param == param,
{
    lemma_distinct_names();
}

/// The number between two bounds that is nearest to a value.
pub open spec fn nearest(value: u64, min: nat, max: nat) -> nat {
    if value <= min {
        min
    } else if value >= max {
        max
    } else {
        value as nat
    }
}

/// Half a second has to pass between an update and the next write; then a write goes to
/// the file of the parameter, and a dry run makes none.
pub proof fn law_writes_wait_half_a_second(
    c: KsmController,
    now: u64,
    param: Seq<char>,
    value: Seq<char>,
    decision: WriteDecision,
)
    requires
        c.decides(now, param, value, decision),
    ensures
        decision is RateLimited <==> now < c.last_update + 500,
        decision is DryRun <==> c.dry_run && now >= c.last_update + 500,
        match decision {
            WriteDecision::Write { path, value: v } => {
                &&& v@ == value
                &&& c.base_path@.len() > 0 && c.base_path@.last() != '/' ==> path@
                    == c.base_path@ + seq!['/'] + param
                &&& c.base_path@.len() > 0 && c.base_path@.last() == '/' ==> path@
                    == c.base_path@ + param
            },
            _ => true,
        },
{
    reveal_strlit("/");
    assert("/"@ =~= seq!['/']);
}

/// A file is found under its name, and the first of two counts; a file that is not there
/// is said to be missing.
pub proof fn law_files_are_found_by_name(
    before: Seq<SysfsFile>,
    file: SysfsFile,
    after: Seq<SysfsFile>,
    name: Seq<char>,
)
    requires
        forall|i: int| 0 <= i < before.len() ==> (#[trigger] before[i]).name@ != name,
    ensures
        file.name@ == name ==> match file.content {
            Ok(content) => content_of(before + seq![file] + after, name) == Ok::<
                Seq<char>,
                Seq<char>,
            >(content@),
            Err(e) => content_of(before + seq![file] + after, name) == Err::<Seq<char>, Seq<char>>(
                e@,
            ),
        },
        content_of(before, name) == Err::<Seq<char>, Seq<char>>(
            "No such file or directory (os error 2)"@,
        ),
    decreases before.len(),
{
    let all = before + seq![file] + after;
    if before.len() == 0 {
        assert(all[0] == file);
    } else {
        assert(before[0].name@ != name);
        assert(all[0] == before[0]);
        let rest = before.skip(1);
        assert forall|i: int| 0 <= i < rest.len() implies (#[trigger] rest[i]).name@ != name by {
            assert(before[i + 1].name@ != name);
        }
        law_files_are_found_by_name(rest, file, after, name);
        assert(all.skip(1) =~= rest + seq![file] + after);
    }
}

proof fn lemma_number_framed(before: Seq<char>, n: u64, after: Seq<char>)
    requires
        forall|i: int| 0 <= i < before.len() ==> text::is_white(#[trigger] before[i]),
        forall|i: int| 0 <= i < after.len() ==> text::is_white(#[trigger] after[i]),
    ensures
        number_in(before + text::decimal(n as nat) + after) == Some(n),
{
    let d = text::decimal(n as nat);
    text::lemma_decimal_digits(n as nat);
    assert(0x30 <= d[0] as u32 <= 0x39);
    assert(0x30 <= d[d.len() - 1] as u32 <= 0x39);
    text::law_white_space_is_trimmed(before, d, after);
    text::lemma_trimmed_fixed(d);
    law_written_number_is_read_back(n);
}

/// A number is read with white space around it, and where the kernel puts brackets around
/// it, whatever stands behind them.
pub proof fn law_numbers_are_read(
    before: Seq<char>,
    n: u64,
    after: Seq<char>,
    profit: i64,
    rest: Seq<char>,
)
    requires
        forall|i: int| 0 <= i < before.len() ==> text::is_white(#[trigger] before[i]),
        forall|i: int| 0 <= i < after.len() ==> text::is_white(#[trigger] after[i]),
        rest.len() > 0 ==> !text::is_white(rest.last()),
    ensures
        number_in(before + text::decimal(n as nat) + after) == Some(n),
        number_in(seq!['['] + text::decimal(n as nat) + (seq![']'] + rest)) == Some(n),
        signed_in(before + text::signed_decimal(profit as int) + after) == Some(profit),
{
    lemma_number_framed(before, n, after);
    let d = text::decimal(n as nat);
    text::lemma_decimal_digits(n as nat);
    text::law_decimal_round_trip(n);
    assert(0x30 <= d[0] as u32 <= 0x39);
    let framed = seq!['['] + d + (seq![']'] + rest);
    assert(framed.last() == (if rest.len() > 0 {
        rest.last()
    } else {
        ']'
    }));
    text::lemma_trimmed_fixed(framed);
    let inner = d + seq![']'] + rest;
    assert(framed =~= seq!['['] + inner);
    text::law_leading_characters_are_taken_off(inner, '[');
    assert(!d.contains(']')) by {
        assert forall|i: int| 0 <= i < d.len() implies d[i] != ']' by {
            assert(0x30 <= d[i] as u32 <= 0x39);
        }
    }
    text::law_separators_split(d, ']', rest);
    let p = text::signed_decimal(profit as int);
    text::law_signed_numbers_are_read_back(profit);
    reveal_strlit("-");
    let m = (if profit < 0 {
        -profit
    } else {
        profit as int
    }) as nat;
    let digits = text::decimal(m);
    text::lemma_decimal_digits(m);
    assert(0x30 <= digits[0] as u32 <= 0x39);
    assert(0x30 <= digits[digits.len() - 1] as u32 <= 0x39);
    assert(p.last() == digits.last());
    text::law_white_space_is_trimmed(before, p, after);
}

/// Of a list of choices the one in brackets is the active one; a text without brackets is
/// itself the value.
pub proof fn law_bracketed_choice_is_active(
    before: Seq<char>,
    choice: Seq<char>,
    after: Seq<char>,
)
    requires
        !before.contains('['),
        !choice.contains(']') && !choice.contains('['),
        text::trimmed(choice) == choice,
        before.len() > 0 ==> !text::is_white(before[0]),
        after.len() > 0 ==> !text::is_white(after.last()),
    ensures
        active_value(before + (seq!['['] + choice + seq![']']) + after) == choice,
        active_value(choice) == choice,
{
    let t = before + (seq!['['] + choice + seq![']']) + after;
    assert(t[0] == (if before.len() > 0 {
        before[0]
    } else {
        '['
    }));
    assert(t.last() == (if after.len() > 0 {
        after.last()
    } else {
        ']'
    }));
    text::lemma_trimmed_fixed(t);
    let tail = choice + seq![']'] + after;
    assert(t =~= before + seq!['['] + tail);
    text::law_first_place(before, '[', tail);
    let open = before.len() as int;
    let head = seq!['['] + choice;
    assert(t.skip(open) =~= head + seq![']'] + after);
    assert(!head.contains(']')) by {
        assert forall|i: int| 0 <= i < head.len() implies head[i] != ']' by {
            if i > 0 {
                assert(choice.contains(choice[i - 1]));
            }
        }
    }
    text::law_first_place(head, ']', after);
    assert(t.subrange(open + 1, open + head.len()) =~= choice);
    text::law_first_place(choice, '[', choice);
}

/// The statistics of a directory are the numbers in its files, each from the file of its
/// name.
pub proof fn law_stats_are_read_from_their_files(
    files: Seq<SysfsFile>,
    d: Map<Seq<char>, Seq<char>>,
    stats: KsmStats,
)
    requires
        holds(files, d),
        d.contains_pair("pages_shared"@, text::decimal(stats.pages_shared as nat)),
        d.contains_pair("pages_sharing"@, text::decimal(stats.pages_sharing as nat)),
        d.contains_pair("pages_unshared"@, text::decimal(stats.pages_unshared as nat)),
        d.contains_pair("pages_volatile"@, text::decimal(stats.pages_volatile as nat)),
        d.contains_pair("pages_scanned"@, text::decimal(stats.pages_scanned as nat)),
        d.contains_pair("pages_skipped"@, text::decimal(stats.pages_skipped as nat)),
        d.contains_pair("full_scans"@, text::decimal(stats.full_scans as nat)),
        d.contains_pair("ksm_zero_pages"@, text::decimal(stats.ksm_zero_pages as nat)),
        d.contains_pair("stable_node_chains"@, text::decimal(stats.stable_node_chains as nat)),
        d.contains_pair("stable_node_dups"@, text::decimal(stats.stable_node_dups as nat)),
        d.contains_pair("general_profit"@, text::signed_decimal(stats.general_profit as int)),
    ensures
        stats_readable(files),
        stats_in(files) == stats,
{
    let none = Seq::<char>::empty();
    assert(d.contains_key("pages_shared"@));
    law_written_number_is_read_back(stats.pages_shared);
    assert(d.contains_key("pages_sharing"@));
    law_written_number_is_read_back(stats.pages_sharing);
    assert(d.contains_key("pages_unshared"@));
    law_written_number_is_read_back(stats.pages_unshared);
    assert(d.contains_key("pages_volatile"@));
    law_written_number_is_read_back(stats.pages_volatile);
    assert(d.contains_key("pages_scanned"@));
    law_written_number_is_read_back(stats.pages_scanned);
    assert(d.contains_key("pages_skipped"@));
    law_written_number_is_read_back(stats.pages_skipped);
    assert(d.contains_key("full_scans"@));
    law_written_number_is_read_back(stats.full_scans);
    assert(d.contains_key("ksm_zero_pages"@));
    law_written_number_is_read_back(stats.ksm_zero_pages);
    assert(d.contains_key("stable_node_chains"@));
    law_written_number_is_read_back(stats.stable_node_chains);
    assert(d.contains_key("stable_node_dups"@));
    law_written_number_is_read_back(stats.stable_node_dups);
    assert(d.contains_key("general_profit"@));
    let p = text::signed_decimal(stats.general_profit as int);
    law_numbers_are_read(none, 0, none, stats.general_profit, none);
    assert(none + p + none =~= p);
    let params = stats_params();
    assert(params.skip(1)[0] == "pages_sharing"@);
    assert(params.skip(1).skip(1)[0] == "pages_unshared"@);
    assert(params.skip(1).skip(1).skip(1)[0] == "pages_volatile"@);
    assert(params.skip(1).skip(1).skip(1).skip(1)[0] == "pages_scanned"@);
    assert(params.skip(1).skip(1).skip(1).skip(1).skip(1)[0] == "pages_skipped"@);
    assert(params.skip(1).skip(1).skip(1).skip(1).skip(1).skip(1)[0] == "full_scans"@);
    reveal_with_fuel(first_failure, 8);
}

/// Seven counters and the profit have to be there: without a number in one of these files
/// the statistics cannot be read. The other three count as zero where they are missing.
pub proof fn law_stats_need_their_files(files: Seq<SysfsFile>)
    requires
        stats_readable(files),
    ensures
        spec_read_u64(files, "pages_shared"@) is Ok,
        spec_read_u64(files, "pages_sharing"@) is Ok,
        spec_read_u64(files, "pages_unshared"@) is Ok,
        spec_read_u64(files, "pages_volatile"@) is Ok,
        spec_read_u64(files, "pages_scanned"@) is Ok,
        spec_read_u64(files, "pages_skipped"@) is Ok,
        spec_read_u64(files, "full_scans"@) is Ok,
        spec_read_i64(files, "general_profit"@) is Ok,
        content_of(files, "ksm_zero_pages"@) is Err ==> stats_in(files).ksm_zero_pages == 0,
        content_of(files, "stable_node_chains"@) is Err ==> stats_in(files).stable_node_chains
            == 0,
        content_of(files, "stable_node_dups"@) is Err ==> stats_in(files).stable_node_dups == 0,
{
    let params = stats_params();
    law_first_failure_is_named(files, params, 0);
    assert(params[0] == "pages_shared"@);
    law_first_failure_is_named(files, params, 0);
    assert(params[1] == "pages_sharing"@);
    law_first_failure_is_named(files, params, 1);
    assert(params[2] == "pages_unshared"@);
    law_first_failure_is_named(files, params, 2);
    assert(params[3] == "pages_volatile"@);
    law_first_failure_is_named(files, params, 3);
    assert(params[4] == "pages_scanned"@);
    law_first_failure_is_named(files, params, 4);
    assert(params[5] == "pages_skipped"@);
    law_first_failure_is_named(files, params, 5);
    assert(params[6] == "full_scans"@);
    law_first_failure_is_named(files, params, 6);
}

/// The first file that cannot be read is the one that is named: every parameter before it
/// can be read, and where nothing is named, all can.
pub proof fn law_first_failure_is_named(files: Seq<SysfsFile>, params: Seq<Seq<char>>, i: int)
    requires
        0 <= i < params.len(),
    ensures
        spec_read_u64(files, params[i]) is Err ==> first_failure(files, params) is Some,
        first_failure(files, params) is None ==> spec_read_u64(files, params[i]) is Ok,
        spec_read_u64(files, params[i]) is Err && (forall|k: int|
            0 <= k < i ==> spec_read_u64(files, #[trigger] params[k]) is Ok) ==> first_failure(
            files,
            params,
        ) == Some((params[i], spec_read_u64(files, params[i])->Err_0)),
    decreases params.len(),
{
    if i > 0 {
        let rest = params.skip(1);
        law_first_failure_is_named(files, rest, i - 1);
        if forall|k: int| 0 <= k < i ==> spec_read_u64(files, #[trigger] params[k]) is Ok {
            assert forall|k: int| 0 <= k < i - 1 implies spec_read_u64(
                files,
                #[trigger] rest[k],
            ) is Ok by {
                assert(spec_read_u64(files, params[k + 1]) is Ok);
            }
            assert(spec_read_u64(files, params[0]) is Ok);
        }
    }
}

/// The settings of a directory that lacks the files of newer kernels: smart scanning is
/// on, there is no advisor, and its bounds are the defaults of the kernel.
pub proof fn law_missing_settings_have_defaults(files: Seq<SysfsFile>)
    ensures
        content_of(files, "smart_scan"@) is Err ==> config_in(files).smart_scan == 1,
        content_of(files, "advisor_mode"@) is Err ==> config_in(files).advisor_mode == ""@,
        content_of(files, "advisor_target_scan_time"@) is Err ==> config_in(
            files,
        ).advisor_target_scan_time == 200,
        content_of(files, "advisor_max_cpu"@) is Err ==> config_in(files).advisor_max_cpu == 70,
        content_of(files, "advisor_min_pages_to_scan"@) is Err ==> config_in(
            files,
        ).advisor_min_pages_to_scan == 500,
        content_of(files, "advisor_max_pages_to_scan"@) is Err ==> config_in(
            files,
        ).advisor_max_pages_to_scan == 30000,
{
}

/// What is listed of two lists of files is what is listed of the one and of the other; a
/// file is listed under its name, with its content trimmed, if it could be read.
pub proof fn law_readable_files_are_listed(
    a: Seq<SysfsFile>,
    b: Seq<SysfsFile>,
    file: SysfsFile,
)
    ensures
        readable(a + b) == readable(a) + readable(b),
        readable(seq![file]) == (match file.content {
            Ok(content) => seq![(file.name@, text::trimmed(content@))],
            Err(_) => Seq::empty(),
        }),
    decreases b.len(),
{
    let one = seq![file];
    assert(one.drop_last() =~= Seq::<SysfsFile>::empty());
    assert(readable(one.drop_last()) =~= Seq::empty());
    assert(readable(one) =~= (match file.content {
        Ok(content) => seq![(file.name@, text::trimmed(content@))],
        Err(_) => Seq::empty(),
    }));
    if b.len() == 0 {
        assert(a + b =~= a);
        assert(readable(a) + readable(b) =~= readable(a));
    } else {
        law_readable_files_are_listed(a, b.drop_last(), file);
        assert((a + b).drop_last() =~= a + b.drop_last());
        assert((a + b).last() == b.last());
        assert(readable(a + b) =~= readable(a) + readable(b));
    }
}

/// The later of two writes to a file counts, and a write touches no other file.
pub proof fn law_last_write_counts(
    dir: Map<Seq<char>, Seq<char>>,
    writes: Seq<ParamWriteView>,
    w: ParamWriteView,
    other: Seq<char>,
)
    ensures
        after_writes(dir, writes.push(w)).contains_pair(w.param, w.value),
        other != w.param ==> (after_writes(dir, writes.push(w)).contains_key(other)
            <==> after_writes(dir, writes).contains_key(other)) && after_writes(
            dir,
            writes.push(w),
        )[other] == after_writes(dir, writes)[other],
        after_writes(dir, Seq::empty()) == dir,
{
    assert(writes.push(w).drop_last() =~= writes);
}

/// A file without a number is reported with what it holds, and a missing one as missing.
pub proof fn law_unreadable_numbers_are_reported(files: Seq<SysfsFile>, param: Seq<char>)
    ensures
        match content_of(files, param) {
            Err(e) => {
                &&& spec_read_u64(files, param) == Err::<u64, Seq<char>>(e)
                &&& spec_read_i64(files, param) == Err::<i64, Seq<char>>(e)
                &&& spec_read_string(files, param) == Err::<Seq<char>, Seq<char>>(e)
            },
            Ok(content) => {
                &&& match spec_read_u64(files, param) {
                    Ok(n) => number_in(content) == Some(n),
                    Err(e) => number_in(content) is None && text::contains_text(
                        e,
                        text::trimmed(content),
                    ),
                }
                &&& match spec_read_i64(files, param) {
                    Ok(n) => signed_in(content) == Some(n),
                    Err(e) => signed_in(content) is None && text::contains_text(
                        e,
                        text::trimmed(content),
                    ),
                }
                &&& spec_read_string(files, param) == Ok::<Seq<char>, Seq<char>>(
                    active_value(content),
                )
            },
        },
{
    if let Ok(content) = content_of(files, param) {
        text::lemma_contains("cannot parse '"@, text::trimmed(content), "' as u64"@);
        text::lemma_contains("cannot parse '"@, text::trimmed(content), "' as i64"@);
    }
}

/// What cannot be done without when KSM is restored: the four settings that every kernel
/// has. The others are tried, and may fail.
pub proof fn law_basic_settings_have_to_be_restored(config: KsmConfigView, i: int)
    requires
        0 <= i < restore_writes(config).len(),
    ensures
        restore_writes(config)[i].required <==> restore_writes(config)[i].param == "run"@
            || restore_writes(config)[i].param == "pages_to_scan"@
            || restore_writes(config)[i].param == "sleep_millisecs"@
            || restore_writes(config)[i].param == "max_page_sharing"@,
{
    lemma_distinct_names();
}

/// A list of writes goes on after a failure only if the write may fail.
pub proof fn law_required_writes_have_to_work<
    W,
    MakeFn: Fn(W, &ParamWrite) -> (Result<(), ZramdedupError>, W),
>(
    writes: Seq<ParamWrite>,
    make: MakeFn,
    outcomes: Seq<Result<(), ZramdedupError>>,
    worlds: Seq<W>,
    from: W,
    to: W,
    i: int,
)
    requires
        went_on(writes, make, outcomes, worlds, from, to),
        0 <= i < outcomes.len(),
        outcomes[i] is Err,
    ensures
        !writes[i].required,
{
}

/// An error about a parameter names its file and what went wrong.
pub proof fn law_errors_name_their_file(
    path: String,
    source: String,
    base: Seq<char>,
    param: Seq<char>,
    what: Seq<char>,
)
    requires
        base.len() > 0,
        base.last() != '/',
    ensures
        is_param_error(ZramdedupError::Sysfs { path, source }, base, param, what) <==> path@
            == base + seq!['/'] + param && source@ == what,
{
    reveal_strlit("/");
    assert("/"@ =~= seq!['/']);
}

} // verus!
