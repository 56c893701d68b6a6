//! Texts that the programs print.
//!
//! Fractional numbers come in as texts; everything else is put together here.

use vstd::prelude::*;
use vstd::string::StringExecFns;

use crate::dedup::DedupStats;
use crate::error::ZramdedupError;
use crate::ksm;
use crate::ksm::{KsmConfig, KsmConfigView, KsmController, KsmStats, SysfsFile};
use crate::procfs;
use crate::proxy::ProxyStats;
use crate::psi;
use crate::psi::PsiStats;
use crate::text;
use crate::text::{chars_of, decimal_text, parse_u64, signed_text, split_lines, strip_prefix, trim};

verus! {

// ---------------------------------------------------------------------------
// Lines
// ---------------------------------------------------------------------------

/// The lines one after the other, each with a line break at its end.
pub open spec fn text_of(lines: Seq<Seq<char>>) -> Seq<char>
    decreases lines.len(),
{
    if lines.len() == 0 {
        Seq::empty()
    } else {
        text_of(lines.drop_last()) + lines.last() + "\n"@
    }
}

/// Puts lines together, each with a line break at its end.
pub fn join_lines(lines: &Vec<String>) -> (r: String)
    ensures
        r@ == text_of(text::strings(lines@)),
{
    let mut out = String::from_str("");
    let ghost all = text::strings(lines@);
    let mut i: usize = 0;
    proof {
        reveal_strlit("");
        assert(out@ =~= Seq::<char>::empty());
        assert(all.take(0) =~= Seq::<Seq<char>>::empty());
    }
    while i < lines.len()
        invariant
            i <= lines.len(),
            all == text::strings(lines@),
            out@ == text_of(all.take(i as int)),
        decreases lines.len() - i,
    {
        assert(all.take(i + 1).drop_last() =~= all.take(i as int));
        assert(all.take(i + 1).last() == lines@[i as int]@);
        out.append(lines[i].as_str());
        out.append("\n");
        i += 1;
    }
    assert(all.take(i as int) =~= all);
    out
}

fn plain(line: &str) -> (r: String)
    ensures
        r@ == line@,
{
    String::from_str(line)
}

fn labelled(label: &str, value: &str, unit: &str) -> (r: String)
    ensures
        r@ == label@ + value@ + unit@,
{
    let mut out = String::from_str(label);
    out.append(value);
    out.append(unit);
    out
}

fn counted(label: &str, value: u64) -> (r: String)
    ensures
        r@ == label@ + text::decimal(value as nat),
{
    text::concat(label, decimal_text(value).as_str())
}

// ---------------------------------------------------------------------------
// Status
// ---------------------------------------------------------------------------

/// What the status shows.
#[derive(Debug)]
pub struct StatusInputs {
    pub config: KsmConfig,
    pub stats: KsmStats,
    pub psi: PsiStats,
}

/// The fractional numbers of the status, as texts: the savings in megabytes with
/// one decimal, and the pressure averages with two.
#[derive(Debug)]
pub struct StatusNumbers {
    pub sharing_savings_mb: String,
    pub some_avg10: String,
    pub some_avg60: String,
    pub full_avg10: String,
    pub full_avg60: String,
}

/// Reads everything that the status shows: the statistics and the configuration
/// of KSM, and then the pressure. The first failure is reported.
pub fn build_status_output(
    ksm: &KsmController,
    files: &Vec<SysfsFile>,
    psi_path: &str,
    psi_content: Result<String, String>,
) -> (r: Result<StatusInputs, ZramdedupError>)
    ensures
        match r {
            Ok(inputs) => {
                &&& ksm::stats_readable(files@)
                &&& inputs.stats == ksm::stats_in(files@)
                &&& ksm::first_failure(files@, ksm::config_params()) is None
                &&& inputs.config@ == ksm::config_in(files@)
                &&& psi_content matches Ok(content)
                &&& inputs.psi@ == psi::PsiStatsView::of_content(content@)
            },
            Err(e) => if !ksm::stats_readable(files@) {
                ksm.stats_error(files@, e)
            } else {
                match ksm::first_failure(files@, ksm::config_params()) {
                    Some((param, source)) => ksm::is_param_error(
                        e,
                        ksm.base_path@,
                        param,
                        source,
                    ),
                    None => {
                        &&& psi_content matches Err(source)
                        &&& e matches ZramdedupError::Sysfs { path, source: s }
                        &&& path@ == psi_path@
                        &&& s == source
                    },
                }
            },
        },
{
    let stats = match ksm.read_stats(files) {
        Ok(stats) => stats,
        Err(e) => {
            return Err(e);
        },
    };
    let config = match ksm.read_config(files) {
        Ok(config) => config,
        Err(e) => {
            return Err(e);
        },
    };
    let psi = match PsiStats::read_from(psi_path, psi_content) {
        Ok(psi) => psi,
        Err(e) => {
            return Err(e);
        },
    };
    Ok(StatusInputs { config, stats, psi })
}

/// The lines of the status.
pub open spec fn status_lines(
    cfg: KsmConfigView,
    stats: KsmStats,
    numbers: StatusNumbers,
) -> Seq<Seq<char>> {
    seq![
        "=== animaksm status ==="@,
        ""@,
        "KSM Configuration:"@,
        "run:                    "@ + text::decimal(cfg.run as nat),
        "pages_to_scan:          "@ + text::decimal(cfg.pages_to_scan as nat),
        "sleep_millisecs:        "@ + text::decimal(cfg.sleep_millisecs as nat),
        "max_page_sharing:       "@ + text::decimal(cfg.max_page_sharing as nat),
        "advisor_mode:           "@ + cfg.advisor_mode,
        "smart_scan:             "@ + text::decimal(cfg.smart_scan as nat),
        ""@,
        "KSM Statistics:"@,
        "pages_shared:           "@ + text::decimal(stats.pages_shared as nat),
        "pages_sharing:          "@ + text::decimal(stats.pages_sharing as nat),
        "pages_unshared:         "@ + text::decimal(stats.pages_unshared as nat),
        "general_profit:         "@ + text::signed_decimal(stats.general_profit as int),
        "full_scans:             "@ + text::decimal(stats.full_scans as nat),
        "sharing_savings_mb:     "@ + numbers.sharing_savings_mb@,
        ""@,
        "Memory Pressure (PSI):"@,
        "some avg10:             "@ + numbers.some_avg10@ + "%"@,
        "some avg60:             "@ + numbers.some_avg60@ + "%"@,
        "full avg10:             "@ + numbers.full_avg10@ + "%"@,
        "full avg60:             "@ + numbers.full_avg60@ + "%"@,
    ]
}

/// The status as text.
pub fn format_status(cfg: &KsmConfig, stats: &KsmStats, numbers: &StatusNumbers) -> (r: String)
    ensures
        r@ == text_of(status_lines(cfg@, *stats, *numbers)),
{
    let lines = vec![
        plain("=== animaksm status ==="),
        plain(""),
        plain("KSM Configuration:"),
        counted("run:                    ", cfg.run),
        counted("pages_to_scan:          ", cfg.pages_to_scan),
        counted("sleep_millisecs:        ", cfg.sleep_millisecs),
        counted("max_page_sharing:       ", cfg.max_page_sharing),
        text::concat("advisor_mode:           ", cfg.advisor_mode.as_str()),
        counted("smart_scan:             ", cfg.smart_scan),
        plain(""),
        plain("KSM Statistics:"),
        counted("pages_shared:           ", stats.pages_shared),
        counted("pages_sharing:          ", stats.pages_sharing),
        counted("pages_unshared:         ", stats.pages_unshared),
        text::concat(
            "general_profit:         ",
            signed_text(stats.general_profit).as_str(),
        ),
        counted("full_scans:             ", stats.full_scans),
        text::concat("sharing_savings_mb:     ", numbers.sharing_savings_mb.as_str()),
        plain(""),
        plain("Memory Pressure (PSI):"),
        labelled("some avg10:             ", numbers.some_avg10.as_str(), "%"),
        labelled("some avg60:             ", numbers.some_avg60.as_str(), "%"),
        labelled("full avg10:             ", numbers.full_avg10.as_str(), "%"),
        labelled("full avg60:             ", numbers.full_avg60.as_str(), "%"),
    ];
    assert(text::strings(lines@) =~= status_lines(cfg@, *stats, *numbers));
    join_lines(&lines)
}

// ---------------------------------------------------------------------------
// Detailed statistics
// ---------------------------------------------------------------------------

/// The number in a file that holds just a number; zero if there is none.
pub open spec fn plain_number(files: Seq<SysfsFile>, name: Seq<char>) -> u64 {
    match ksm::content_of(files, name) {
        Err(_) => 0,
        Ok(content) => text::value_or(
            text::as_u64(text::unsigned_value(text::trimmed(content), 10)),
            0,
        ),
    }
}

fn read_plain_number(files: &Vec<SysfsFile>, name: &str) -> (r: u64)
    ensures
        r == plain_number(files@, name@),
{
    match ksm::find_file(files, name) {
        Err(_) => 0,
        Ok(content) => {
            let chars = chars_of(content);
            match parse_u64(trim(chars.as_slice())) {
                Some(n) => n,
                None => 0,
            }
        },
    }
}

/// The fractional numbers of the detailed statistics, as texts: the two ratios
/// with four decimals, and the sizes in MiB with one.
#[derive(Debug)]
pub struct StatsNumbers {
    pub sharing_shared_ratio: String,
    pub unshared_sharing_ratio: String,
    pub sharing_mib: String,
    pub shared_mib: String,
    pub unshared_mib: String,
    pub profit_mib: String,
}

/// Whether the sharing ratios make sense.
pub open spec fn spec_has_ratios(stats: KsmStats) -> bool {
    stats.pages_shared > 0 && stats.pages_sharing > 0
}

/// Whether the sharing ratios make sense; else they are shown as zero.
pub fn has_ratios(stats: &KsmStats) -> (r: bool)
    ensures
        r == spec_has_ratios(*stats),
{
    stats.pages_shared > 0 && stats.pages_sharing > 0
}

/// The lines of the detailed statistics.
pub open spec fn stats_lines(
    files: Seq<SysfsFile>,
    stats: KsmStats,
    numbers: StatsNumbers,
) -> Seq<Seq<char>> {
    let ratios = spec_has_ratios(stats);
    seq![
        "======================================================"@,
        "AnimaKSMD with KSM statistics support"@,
        "======================================================"@,
        "Full scans:                 "@ + text::decimal(plain_number(files, "full_scans"@) as nat),
        "Interval:                   "@ + text::decimal(
            plain_number(files, "sleep_millisecs"@) as nat,
        ) + " ms"@,
        "Max page sharing ratio:     "@ + text::decimal(
            plain_number(files, "max_page_sharing"@) as nat,
        ),
        "Pages to scan:              "@ + text::decimal(
            plain_number(files, "pages_to_scan"@) as nat,
        ),
        "Pages over ratio:           "@ + text::decimal(
            plain_number(files, "stable_node_chains"@) as nat,
        ),
        "Duplicated pages:           "@ + text::decimal(
            plain_number(files, "stable_node_dups"@) as nat,
        ),
        "Use zero pages:             "@ + text::decimal(
            plain_number(files, "use_zero_pages"@) as nat,
        ),
        ""@,
        "Sharing/shared ratio:       "@ + (if ratios {
            numbers.sharing_shared_ratio@
        } else {
            "0"@
        }),
        "Unshared/sharing ratio:     "@ + (if ratios {
            numbers.unshared_sharing_ratio@
        } else {
            "0"@
        }),
        ""@,
        "Pages sharing:              "@ + numbers.sharing_mib@ + " MiB"@,
        "Pages shared:               "@ + numbers.shared_mib@ + " MiB"@,
        "Pages unshared:             "@ + numbers.unshared_mib@ + " MiB"@,
        ""@,
        "General profit:             "@ + numbers.profit_mib@ + " MiB"@,
    ]
}

/// The detailed KSM statistics, line by line.
pub fn show_stats(files: &Vec<SysfsFile>, stats: &KsmStats, numbers: &StatsNumbers) -> (r: Vec<
    String,
>)
    ensures
        text::strings(r@) == stats_lines(files@, *stats, *numbers),
{
    let (sharing, unshared) = if has_ratios(stats) {
        (numbers.sharing_shared_ratio.as_str(), numbers.unshared_sharing_ratio.as_str())
    } else {
        ("0", "0")
    };
    let interval: u64 = read_plain_number(files, "sleep_millisecs");
    let lines = vec![
        plain("======================================================"),
        plain("AnimaKSMD with KSM statistics support"),
        plain("======================================================"),
        counted("Full scans:                 ", read_plain_number(files, "full_scans")),
        labelled("Interval:                   ", decimal_text(interval).as_str(), " ms"),
        counted("Max page sharing ratio:     ", read_plain_number(files, "max_page_sharing")),
        counted("Pages to scan:              ", read_plain_number(files, "pages_to_scan")),
        counted("Pages over ratio:           ", read_plain_number(files, "stable_node_chains")),
        counted("Duplicated pages:           ", read_plain_number(files, "stable_node_dups")),
        counted("Use zero pages:             ", read_plain_number(files, "use_zero_pages")),
        plain(""),
        text::concat("Sharing/shared ratio:       ", sharing),
        text::concat("Unshared/sharing ratio:     ", unshared),
        plain(""),
        labelled("Pages sharing:              ", numbers.sharing_mib.as_str(), " MiB"),
        labelled("Pages shared:               ", numbers.shared_mib.as_str(), " MiB"),
        labelled("Pages unshared:             ", numbers.unshared_mib.as_str(), " MiB"),
        plain(""),
        labelled("General profit:             ", numbers.profit_mib.as_str(), " MiB"),
    ];
    assert(text::strings(lines@) =~= stats_lines(files@, *stats, *numbers));
    lines
}

// ---------------------------------------------------------------------------
// Swap proxy statistics
// ---------------------------------------------------------------------------

/// The lines of the proxy statistics. The ratio is the share of duplicate writes
/// in percent, with one decimal.
pub open spec fn proxy_lines(
    stats: ProxyStats,
    table: DedupStats,
    dedup_ratio: Seq<char>,
) -> Seq<Seq<char>> {
    seq![
        "=== animaksm swap proxy statistics ==="@,
        ""@,
        "Write Operations:"@,
        "  Total writes:         "@ + text::decimal(stats.total_writes as nat),
        "  Unique writes:        "@ + text::decimal(stats.unique_writes as nat),
        "  Duplicate (deduped):  "@ + text::decimal(stats.duplicate_writes as nat),
        "  Dedup ratio:          "@ + dedup_ratio + "%"@,
        ""@,
        "Read Operations:"@,
        "  Total reads:          "@ + text::decimal(stats.total_reads as nat),
        ""@,
        "Discards:               "@ + text::decimal(stats.discards as nat),
        ""@,
        "Dedup Table:"@,
        "  Unique pages tracked: "@ + text::decimal(table.table_entries as nat),
        "  Total unique seen:    "@ + text::decimal(table.unique_pages as nat),
        "  Duplicate hits:       "@ + text::decimal(table.duplicate_hits as nat),
        "  Evictions:            "@ + text::decimal(table.evictions as nat),
        "  Bloom false positives: "@ + text::decimal(table.bloom_false_positives as nat),
    ]
}

/// The proxy statistics, line by line.
pub fn print_stats(stats: &ProxyStats, table: &DedupStats, dedup_ratio: &str) -> (r: Vec<String>)
    ensures
        text::strings(r@) == proxy_lines(*stats, *table, dedup_ratio@),
{
    let lines = vec![
        plain("=== animaksm swap proxy statistics ==="),
        plain(""),
        plain("Write Operations:"),
        counted("  Total writes:         ", stats.total_writes),
        counted("  Unique writes:        ", stats.unique_writes),
        counted("  Duplicate (deduped):  ", stats.duplicate_writes),
        labelled("  Dedup ratio:          ", dedup_ratio, "%"),
        plain(""),
        plain("Read Operations:"),
        counted("  Total reads:          ", stats.total_reads),
        plain(""),
        counted("Discards:               ", stats.discards),
        plain(""),
        plain("Dedup Table:"),
        counted("  Unique pages tracked: ", table.table_entries),
        counted("  Total unique seen:    ", table.unique_pages),
        counted("  Duplicate hits:       ", table.duplicate_hits),
        counted("  Evictions:            ", table.evictions),
        counted("  Bloom false positives: ", table.bloom_false_positives),
    ];
    assert(text::strings(lines@) =~= proxy_lines(*stats, *table, dedup_ratio@));
    lines
}

// ---------------------------------------------------------------------------
// Metrics
// ---------------------------------------------------------------------------

/// The resident size in the lines of a status file: the first VmRSS line counts.
pub open spec fn rss_in(lines: Seq<Seq<char>>) -> u64
    decreases lines.len(),
{
    if lines.len() == 0 {
        0
    } else {
        match text::after_prefix(lines[0], "VmRSS:"@) {
            Some(value) => procfs::kb_value(value),
            None => rss_in(lines.skip(1)),
        }
    }
}

/// The daemon's own resident size in kilobytes, from its status file where that
/// could be read.
pub fn read_self_rss_kb(content: Option<String>) -> (r: u64)
    ensures
        r == match content {
            Some(content) => rss_in(text::lines(content@)),
            None => 0,
        },
{
    let content = match content {
        Some(content) => content,
        None => {
            return 0;
        },
    };
    let chars = chars_of(content.as_str());
    let lines = split_lines(chars.as_slice());
    first_rss(&lines)
}

fn first_rss(lines: &Vec<&[char]>) -> (r: u64)
    ensures
        r == rss_in(text::views(lines@)),
{
    let ghost all = text::views(lines@);
    let mut i: usize = 0;
    assert(all.skip(0) =~= all);
    while i < lines.len()
        invariant
            i <= lines.len(),
            all == text::views(lines@),
            rss_in(all) == rss_in(all.skip(i as int)),
        decreases lines.len() - i,
    {
        assert(all.skip(i as int)[0] == lines@[i as int]@);
        assert(all.skip(i as int).skip(1) =~= all.skip(i + 1));
        if let Some(value) = strip_prefix(lines[i], "VmRSS:") {
            return procfs::kb_value_of(value);
        }
        i += 1;
    }
    0
}

// ---------------------------------------------------------------------------
// Laws
// ---------------------------------------------------------------------------

/// Whether a line says a value under a label.
pub open spec fn says(line: Seq<char>, label: Seq<char>, value: Seq<char>) -> bool {
    text::after_prefix(line, label) matches Some(rest) && text::trimmed(rest) == value
}

proof fn lemma_says_value(full: Seq<char>, label: Seq<char>, value: Seq<char>)
    requires
        text::has_prefix(full, label),
        forall|i: int| label.len() <= i < full.len() ==> text::is_white(#[trigger] full[i]),
        value.len() > 0,
        !text::is_white(value[0]),
        !text::is_white(value.last()),
    ensures
        says(full + value, label, value),
{
    let line = full + value;
    let n = label.len() as int;
    let spaces = full.skip(n);
    let none = Seq::<char>::empty();
    assert(full.subrange(0, n) =~= label);
    assert(line.subrange(0, n) =~= label);
    assert(line.skip(n) =~= spaces + value + none);
    assert forall|i: int| 0 <= i < spaces.len() implies text::is_white(#[trigger] spaces[i]) by {
        assert(text::is_white(full[i + n]));
    }
    text::law_white_space_is_trimmed(spaces, value, none);
}

proof fn lemma_says(full: Seq<char>, label: Seq<char>, n: nat)
    requires
        text::has_prefix(full, label),
        forall|i: int| label.len() <= i < full.len() ==> text::is_white(#[trigger] full[i]),
    ensures
        says(full + text::decimal(n), label, text::decimal(n)),
{
    let d = text::decimal(n);
    text::lemma_decimal_digits(n);
    assert(0x30 <= d[0] as u32 <= 0x39);
    assert(0x30 <= d[d.len() - 1] as u32 <= 0x39);
    lemma_says_value(full, label, d);
}

proof fn lemma_says_signed(full: Seq<char>, label: Seq<char>, n: i64)
    requires
        text::has_prefix(full, label),
        forall|i: int| label.len() <= i < full.len() ==> text::is_white(#[trigger] full[i]),
    ensures
        says(full + text::signed_decimal(n as int), label, text::signed_decimal(n as int)),
{
    reveal_strlit("-");
    let m = (if n < 0 {
        -n
    } else {
        n as int
    }) as nat;
    let d = text::decimal(m);
    text::lemma_decimal_digits(m);
    assert(0x30 <= d[0] as u32 <= 0x39);
    assert(0x30 <= d[d.len() - 1] as u32 <= 0x39);
    lemma_says_value(full, label, text::signed_decimal(n as int));
}

/// The text of two lists of lines is the text of the one and that of the other; a line
/// ends with a newline.
pub proof fn law_lines_follow_each_other(
    a: Seq<Seq<char>>,
    b: Seq<Seq<char>>,
    line: Seq<char>,
)
    ensures
        text_of(a + b) == text_of(a) + text_of(b),
        text_of(seq![line]) == line + seq!['\n'],
    decreases b.len(),
{
    reveal_strlit("\n");
    assert("\n"@ =~= seq!['\n']);
    let one = seq![line];
    assert(one.drop_last() =~= Seq::<Seq<char>>::empty());
    assert(text_of(one.drop_last()) =~= Seq::<char>::empty());
    assert(one.last() == line);
    assert(text_of(one) =~= line + seq!['\n']);
    if b.len() == 0 {
        assert(a + b =~= a);
        assert(text_of(a) + text_of(b) =~= text_of(a));
    } else {
        law_lines_follow_each_other(a, b.drop_last(), line);
        assert((a + b).drop_last() =~= a + b.drop_last());
        assert((a + b).last() == b.last());
        assert(text_of(a + b) =~= text_of(a) + text_of(b));
    }
}

/// The lines of a text that was put together are those lines again.
pub proof fn law_lines_are_read_back(lines: Seq<Seq<char>>)
    requires
        forall|i: int| 0 <= i < lines.len() ==> !(#[trigger] lines[i]).contains('\n'),
        forall|i: int|
            0 <= i < lines.len() ==> (#[trigger] lines[i]).len() == 0 || lines[i].last() != '\r',
    ensures
        text::lines(text_of(lines)) == lines,
    decreases lines.len(),
{
    let none = Seq::<char>::empty();
    text::law_newlines_end_lines(none, none, none);
    if lines.len() > 0 {
        let front = lines.drop_last();
        let line = lines.last();
        assert forall|i: int| 0 <= i < front.len() implies !(#[trigger] front[i]).contains(
            '\n',
        ) by {
            assert(!lines[i].contains('\n'));
        }
        assert forall|i: int| 0 <= i < front.len() implies (#[trigger] front[i]).len() == 0
            || front[i].last() != '\r' by {
            assert(lines[i].len() == 0 || lines[i].last() != '\r');
        }
        assert(!lines[lines.len() - 1].contains('\n'));
        assert(line.len() == 0 || lines[lines.len() - 1].last() != '\r');
        law_lines_are_read_back(front);
        let nl = seq!['\n'];
        reveal_strlit("\n");
        assert("\n"@ =~= nl);
        let before = text_of(front);
        text::law_newlines_end_lines(none, line, none);
        if front.len() > 0 {
            let cut = text_of(front.drop_last()) + front.last();
            assert(before =~= cut + nl);
            text::law_newlines_end_lines(cut, none, line + nl);
            assert(text_of(lines) =~= cut + nl + (line + nl));
        } else {
            assert(before =~= none);
            assert(text_of(lines) =~= line + nl);
        }
        assert(front + seq![line] =~= lines);
        assert(text::lines(text_of(lines)) =~= lines);
    } else {
        assert(text_of(lines) =~= none);
        assert(lines =~= Seq::<Seq<char>>::empty());
    }
}

/// The resident memory is that of the first line that gives it, in kilobytes, and zero
/// where there is none.
pub proof fn law_resident_memory_is_read(lines: Seq<Seq<char>>, n: u64, rest: Seq<Seq<char>>)
    requires
        forall|i: int|
            0 <= i < lines.len() ==> !text::has_prefix(#[trigger] lines[i], "VmRSS:"@),
    ensures
        rss_in(
            lines + seq!["VmRSS:"@ + (seq!['\t'] + (text::decimal(n as nat) + " kB"@))] + rest,
        ) == n,
        rss_in(lines) == 0,
    decreases lines.len(),
{
    let tab = seq!['\t'];
    let none = Seq::<char>::empty();
    let amount = text::decimal(n as nat) + " kB"@;
    let line = "VmRSS:"@ + (tab + amount);
    let all = lines + seq![line] + rest;
    if lines.len() == 0 {
        assert(all[0] == line);
        procfs::law_amounts_are_in_kilobytes(tab, n, none);
        assert(tab + amount + none =~= tab + amount);
        text::law_prefix_is_taken_off(none, "VmRSS:"@, tab + amount);
    } else {
        assert(!text::has_prefix(lines[0], "VmRSS:"@));
        assert(all[0] == lines[0]);
        let tail = lines.skip(1);
        assert forall|i: int| 0 <= i < tail.len() implies !text::has_prefix(
            #[trigger] tail[i],
            "VmRSS:"@,
        ) by {
            assert(!text::has_prefix(lines[i + 1], "VmRSS:"@));
        }
        law_resident_memory_is_read(tail, n, rest);
        assert(all.skip(1) =~= tail + seq![line] + rest);
    }
}

/// A number is read from its file, with the white space around it taken off; it is zero
/// where the file is missing.
pub proof fn law_plain_numbers_are_read(
    files: Seq<SysfsFile>,
    name: Seq<char>,
    n: u64,
)
    ensures
        ksm::content_of(files, name) == Ok::<Seq<char>, Seq<char>>(
            text::decimal(n as nat) + seq!['\n'],
        ) ==> plain_number(files, name) == n,
        ksm::content_of(files, name) is Err ==> plain_number(files, name) == 0,
{
    let d = text::decimal(n as nat);
    let none = Seq::<char>::empty();
    let nl = seq!['\n'];
    text::lemma_decimal_digits(n as nat);
    text::law_decimal_round_trip(n);
    assert(0x30 <= d[0] as u32 <= 0x39);
    assert(0x30 <= d[d.len() - 1] as u32 <= 0x39);
    text::law_white_space_is_trimmed(none, d, nl);
    assert(none + d + nl =~= d + nl);
}

/// The status names each setting and each counter and says its number.
pub proof fn law_status_says_the_numbers(
    cfg: KsmConfigView,
    stats: KsmStats,
    numbers: StatusNumbers,
)
    ensures
        says(status_lines(cfg, stats, numbers)[3], "run:"@, text::decimal(cfg.run as nat)),
        says(
            status_lines(cfg, stats, numbers)[4],
            "pages_to_scan:"@,
            text::decimal(cfg.pages_to_scan as nat),
        ),
        says(
            status_lines(cfg, stats, numbers)[5],
            "sleep_millisecs:"@,
            text::decimal(cfg.sleep_millisecs as nat),
        ),
        says(
            status_lines(cfg, stats, numbers)[6],
            "max_page_sharing:"@,
            text::decimal(cfg.max_page_sharing as nat),
        ),
        says(
            status_lines(cfg, stats, numbers)[8],
            "smart_scan:"@,
            text::decimal(cfg.smart_scan as nat),
        ),
        says(
            status_lines(cfg, stats, numbers)[11],
            "pages_shared:"@,
            text::decimal(stats.pages_shared as nat),
        ),
        says(
            status_lines(cfg, stats, numbers)[12],
            "pages_sharing:"@,
            text::decimal(stats.pages_sharing as nat),
        ),
        says(
            status_lines(cfg, stats, numbers)[13],
            "pages_unshared:"@,
            text::decimal(stats.pages_unshared as nat),
        ),
        says(
            status_lines(cfg, stats, numbers)[14],
            "general_profit:"@,
            text::signed_decimal(stats.general_profit as int),
        ),
        says(
            status_lines(cfg, stats, numbers)[15],
            "full_scans:"@,
            text::decimal(stats.full_scans as nat),
        ),
{
    reveal_strlit("run:                    ");
    reveal_strlit("run:");
    assert("run:                    "@.subrange(0, 4) =~= "run:"@);
    lemma_says("run:                    "@, "run:"@, cfg.run as nat);
    reveal_strlit("pages_to_scan:          ");
    reveal_strlit("pages_to_scan:");
    assert("pages_to_scan:          "@.subrange(0, 14) =~= "pages_to_scan:"@);
    lemma_says("pages_to_scan:          "@, "pages_to_scan:"@, cfg.pages_to_scan as nat);
    reveal_strlit("sleep_millisecs:        ");
    reveal_strlit("sleep_millisecs:");
    assert("sleep_millisecs:        "@.subrange(0, 16) =~= "sleep_millisecs:"@);
    lemma_says("sleep_millisecs:        "@, "sleep_millisecs:"@, cfg.sleep_millisecs as nat);
    reveal_strlit("max_page_sharing:       ");
    reveal_strlit("max_page_sharing:");
    assert("max_page_sharing:       "@.subrange(0, 17) =~= "max_page_sharing:"@);
    lemma_says("max_page_sharing:       "@, "max_page_sharing:"@, cfg.max_page_sharing as nat);
    reveal_strlit("smart_scan:             ");
    reveal_strlit("smart_scan:");
    assert("smart_scan:             "@.subrange(0, 11) =~= "smart_scan:"@);
    lemma_says("smart_scan:             "@, "smart_scan:"@, cfg.smart_scan as nat);
    reveal_strlit("pages_shared:           ");
    reveal_strlit("pages_shared:");
    assert("pages_shared:           "@.subrange(0, 13) =~= "pages_shared:"@);
    lemma_says("pages_shared:           "@, "pages_shared:"@, stats.pages_shared as nat);
    reveal_strlit("pages_sharing:          ");
    reveal_strlit("pages_sharing:");
    assert("pages_sharing:          "@.subrange(0, 14) =~= "pages_sharing:"@);
    lemma_says("pages_sharing:          "@, "pages_sharing:"@, stats.pages_sharing as nat);
    reveal_strlit("pages_unshared:         ");
    reveal_strlit("pages_unshared:");
    assert("pages_unshared:         "@.subrange(0, 15) =~= "pages_unshared:"@);
    lemma_says("pages_unshared:         "@, "pages_unshared:"@, stats.pages_unshared as nat);
    reveal_strlit("general_profit:         ");
    reveal_strlit("general_profit:");
    assert("general_profit:         "@.subrange(0, 15) =~= "general_profit:"@);
    lemma_says_signed("general_profit:         "@, "general_profit:"@, stats.general_profit);
    reveal_strlit("full_scans:             ");
    reveal_strlit("full_scans:");
    assert("full_scans:             "@.subrange(0, 11) =~= "full_scans:"@);
    lemma_says("full_scans:             "@, "full_scans:"@, stats.full_scans as nat);
}

/// The statistics name each file that they were read from and say its number.
pub proof fn law_statistics_say_the_numbers(
    files: Seq<SysfsFile>,
    stats: KsmStats,
    numbers: StatsNumbers,
)
    ensures
        says(
            stats_lines(files, stats, numbers)[3],
            "Full scans:"@,
            text::decimal(plain_number(files, "full_scans"@) as nat),
        ),
        says(
            stats_lines(files, stats, numbers)[5],
            "Max page sharing ratio:"@,
            text::decimal(plain_number(files, "max_page_sharing"@) as nat),
        ),
        says(
            stats_lines(files, stats, numbers)[6],
            "Pages to scan:"@,
            text::decimal(plain_number(files, "pages_to_scan"@) as nat),
        ),
        says(
            stats_lines(files, stats, numbers)[7],
            "Pages over ratio:"@,
            text::decimal(plain_number(files, "stable_node_chains"@) as nat),
        ),
        says(
            stats_lines(files, stats, numbers)[8],
            "Duplicated pages:"@,
            text::decimal(plain_number(files, "stable_node_dups"@) as nat),
        ),
        says(
            stats_lines(files, stats, numbers)[9],
            "Use zero pages:"@,
            text::decimal(plain_number(files, "use_zero_pages"@) as nat),
        ),
{
    reveal_strlit("Full scans:                 ");
    reveal_strlit("Full scans:");
    assert("Full scans:                 "@.subrange(0, 11) =~= "Full scans:"@);
    lemma_says(
        "Full scans:                 "@,
        "Full scans:"@,
        plain_number(files,
        "full_scans"@) as nat,
    );
    reveal_strlit("Max page sharing ratio:     ");
    reveal_strlit("Max page sharing ratio:");
    assert("Max page sharing ratio:     "@.subrange(0, 23) =~= "Max page sharing ratio:"@);
    lemma_says(
        "Max page sharing ratio:     "@,
        "Max page sharing ratio:"@,
        plain_number(files,
        "max_page_sharing"@) as nat,
    );
    reveal_strlit("Pages to scan:              ");
    reveal_strlit("Pages to scan:");
    assert("Pages to scan:              "@.subrange(0, 14) =~= "Pages to scan:"@);
    lemma_says(
        "Pages to scan:              "@,
        "Pages to scan:"@,
        plain_number(files,
        "pages_to_scan"@) as nat,
    );
    reveal_strlit("Pages over ratio:           ");
    reveal_strlit("Pages over ratio:");
    assert("Pages over ratio:           "@.subrange(0, 17) =~= "Pages over ratio:"@);
    lemma_says(
        "Pages over ratio:           "@,
        "Pages over ratio:"@,
        plain_number(files,
        "stable_node_chains"@) as nat,
    );
    reveal_strlit("Duplicated pages:           ");
    reveal_strlit("Duplicated pages:");
    assert("Duplicated pages:           "@.subrange(0, 17) =~= "Duplicated pages:"@);
    lemma_says(
        "Duplicated pages:           "@,
        "Duplicated pages:"@,
        plain_number(files,
        "stable_node_dups"@) as nat,
    );
    reveal_strlit("Use zero pages:             ");
    reveal_strlit("Use zero pages:");
    assert("Use zero pages:             "@.subrange(0, 15) =~= "Use zero pages:"@);
    lemma_says(
        "Use zero pages:             "@,
        "Use zero pages:"@,
        plain_number(files,
        "use_zero_pages"@) as nat,
    );
}

/// The statistics of the swap proxy name each counter and say its number.
pub proof fn law_proxy_statistics_say_the_numbers(
    stats: ProxyStats,
    table: DedupStats,
    ratio: Seq<char>,
)
    ensures
        says(
            proxy_lines(stats, table, ratio)[3],
            "  Total writes:"@,
            text::decimal(stats.total_writes as nat),
        ),
        says(
            proxy_lines(stats, table, ratio)[4],
            "  Unique writes:"@,
            text::decimal(stats.unique_writes as nat),
        ),
        says(
            proxy_lines(stats, table, ratio)[5],
            "  Duplicate (deduped):"@,
            text::decimal(stats.duplicate_writes as nat),
        ),
        says(
            proxy_lines(stats, table, ratio)[9],
            "  Total reads:"@,
            text::decimal(stats.total_reads as nat),
        ),
        says(
            proxy_lines(stats, table, ratio)[11],
            "Discards:"@,
            text::decimal(stats.discards as nat),
        ),
        says(
            proxy_lines(stats, table, ratio)[14],
            "  Unique pages tracked:"@,
            text::decimal(table.table_entries as nat),
        ),
        says(
            proxy_lines(stats, table, ratio)[15],
            "  Total unique seen:"@,
            text::decimal(table.unique_pages as nat),
        ),
        says(
            proxy_lines(stats, table, ratio)[16],
            "  Duplicate hits:"@,
            text::decimal(table.duplicate_hits as nat),
        ),
        says(
            proxy_lines(stats, table, ratio)[17],
            "  Evictions:"@,
            text::decimal(table.evictions as nat),
        ),
        says(
            proxy_lines(stats, table, ratio)[18],
            "  Bloom false positives:"@,
            text::decimal(table.bloom_false_positives as nat),
        ),
{
    reveal_strlit("  Total writes:         ");
    reveal_strlit("  Total writes:");
    assert("  Total writes:         "@.subrange(0, 15) =~= "  Total writes:"@);
    lemma_says("  Total writes:         "@, "  Total writes:"@, stats.total_writes as nat);
    reveal_strlit("  Unique writes:        ");
    reveal_strlit("  Unique writes:");
    assert("  Unique writes:        "@.subrange(0, 16) =~= "  Unique writes:"@);
    lemma_says("  Unique writes:        "@, "  Unique writes:"@, stats.unique_writes as nat);
    reveal_strlit("  Duplicate (deduped):  ");
    reveal_strlit("  Duplicate (deduped):");
    assert("  Duplicate (deduped):  "@.subrange(0, 22) =~= "  Duplicate (deduped):"@);
    lemma_says(
        "  Duplicate (deduped):  "@,
        "  Duplicate (deduped):"@,
        stats.duplicate_writes as nat,
    );
    reveal_strlit("  Total reads:          ");
    reveal_strlit("  Total reads:");
    assert("  Total reads:          "@.subrange(0, 14) =~= "  Total reads:"@);
    lemma_says("  Total reads:          "@, "  Total reads:"@, stats.total_reads as nat);
    reveal_strlit("Discards:               ");
    reveal_strlit("Discards:");
    assert("Discards:               "@.subrange(0, 9) =~= "Discards:"@);
    lemma_says("Discards:               "@, "Discards:"@, stats.discards as nat);
    reveal_strlit("  Unique pages tracked: ");
    reveal_strlit("  Unique pages tracked:");
    assert("  Unique pages tracked: "@.subrange(0, 23) =~= "  Unique pages tracked:"@);
    lemma_says("  Unique pages tracked: "@, "  Unique pages tracked:"@, table.table_entries as nat);
    reveal_strlit("  Total unique seen:    ");
    reveal_strlit("  Total unique seen:");
    assert("  Total unique seen:    "@.subrange(0, 20) =~= "  Total unique seen:"@);
    lemma_says("  Total unique seen:    "@, "  Total unique seen:"@, table.unique_pages as nat);
    reveal_strlit("  Duplicate hits:       ");
    reveal_strlit("  Duplicate hits:");
    assert("  Duplicate hits:       "@.subrange(0, 17) =~= "  Duplicate hits:"@);
    lemma_says("  Duplicate hits:       "@, "  Duplicate hits:"@, table.duplicate_hits as nat);
    reveal_strlit("  Evictions:            ");
    reveal_strlit("  Evictions:");
    assert("  Evictions:            "@.subrange(0, 12) =~= "  Evictions:"@);
    lemma_says("  Evictions:            "@, "  Evictions:"@, table.evictions as nat);
    reveal_strlit("  Bloom false positives: ");
    reveal_strlit("  Bloom false positives:");
    assert("  Bloom false positives: "@.subrange(0, 24) =~= "  Bloom false positives:"@);
    lemma_says(
        "  Bloom false positives: "@,
        "  Bloom false positives:"@,
        table.bloom_false_positives as nat,
    );
}

/// Ratios are only given where there is something to divide by.
pub proof fn law_ratios_need_shared_pages(stats: KsmStats)
    ensures
        spec_has_ratios(stats) <==> stats.pages_shared != 0 && stats.pages_sharing != 0,
{
}

/// Whether a line begins with a label and holds a value behind it.
pub open spec fn names(line: Seq<char>, label: Seq<char>, value: Seq<char>) -> bool {
    text::after_prefix(line, label) matches Some(rest) && text::contains_text(rest, value)
}

proof fn lemma_names(full: Seq<char>, label: Seq<char>, value: Seq<char>, tail: Seq<char>)
    requires
        text::has_prefix(full, label),
    ensures
        names(full + value + tail, label, value),
{
    let line = full + value + tail;
    let n = label.len() as int;
    let gap = full.skip(n);
    assert(full.subrange(0, n) =~= label);
    assert(line.subrange(0, n) =~= label);
    assert(line.skip(n) =~= gap + value + tail);
    text::lemma_contains(gap, value, tail);
}

/// The status names the mode of the advisor, the savings and each average of the pressure.
pub proof fn law_status_names_the_texts(cfg: KsmConfigView, stats: KsmStats, numbers: StatusNumbers)
    ensures
        names(status_lines(cfg, stats, numbers)[7], "advisor_mode:"@, cfg.advisor_mode),
        names(
            status_lines(cfg, stats, numbers)[16],
            "sharing_savings_mb:"@,
            numbers.sharing_savings_mb@,
        ),
        names(status_lines(cfg, stats, numbers)[19], "some avg10:"@, numbers.some_avg10@),
        names(status_lines(cfg, stats, numbers)[20], "some avg60:"@, numbers.some_avg60@),
        names(status_lines(cfg, stats, numbers)[21], "full avg10:"@, numbers.full_avg10@),
        names(status_lines(cfg, stats, numbers)[22], "full avg60:"@, numbers.full_avg60@),
{
    reveal_strlit("advisor_mode:           ");
    reveal_strlit("advisor_mode:");
    assert("advisor_mode:           "@.subrange(0, 13) =~= "advisor_mode:"@);
    lemma_names("advisor_mode:           "@, "advisor_mode:"@, cfg.advisor_mode, Seq::empty());
    assert("advisor_mode:           "@ + cfg.advisor_mode + Seq::<char>::empty()
        =~= "advisor_mode:           "@ + cfg.advisor_mode);
    reveal_strlit("sharing_savings_mb:     ");
    reveal_strlit("sharing_savings_mb:");
    assert("sharing_savings_mb:     "@.subrange(0, 19) =~= "sharing_savings_mb:"@);
    lemma_names(
        "sharing_savings_mb:     "@,
        "sharing_savings_mb:"@,
        numbers.sharing_savings_mb@,
        Seq::empty(),
    );
    assert("sharing_savings_mb:     "@ + numbers.sharing_savings_mb@ + Seq::<char>::empty()
        =~= "sharing_savings_mb:     "@ + numbers.sharing_savings_mb@);
    reveal_strlit("some avg10:             ");
    reveal_strlit("some avg10:");
    assert("some avg10:             "@.subrange(0, 11) =~= "some avg10:"@);
    lemma_names("some avg10:             "@, "some avg10:"@, numbers.some_avg10@, "%"@);
    reveal_strlit("some avg60:             ");
    reveal_strlit("some avg60:");
    assert("some avg60:             "@.subrange(0, 11) =~= "some avg60:"@);
    lemma_names("some avg60:             "@, "some avg60:"@, numbers.some_avg60@, "%"@);
    reveal_strlit("full avg10:             ");
    reveal_strlit("full avg10:");
    assert("full avg10:             "@.subrange(0, 11) =~= "full avg10:"@);
    lemma_names("full avg10:             "@, "full avg10:"@, numbers.full_avg10@, "%"@);
    reveal_strlit("full avg60:             ");
    reveal_strlit("full avg60:");
    assert("full avg60:             "@.subrange(0, 11) =~= "full avg60:"@);
    lemma_names("full avg60:             "@, "full avg60:"@, numbers.full_avg60@, "%"@);
}

/// The statistics name the interval, the ratios, where there are any, and each amount of memory.
pub proof fn law_statistics_name_the_texts(
    files: Seq<SysfsFile>,
    stats: KsmStats,
    numbers: StatsNumbers,
)
    ensures
        names(
            stats_lines(files, stats, numbers)[4],
            "Interval:"@,
            text::decimal(plain_number(files, "sleep_millisecs"@) as nat),
        ),
        spec_has_ratios(stats) ==> names(
            stats_lines(files, stats, numbers)[11],
            "Sharing/shared ratio:"@,
            numbers.sharing_shared_ratio@,
        ),
        spec_has_ratios(stats) ==> names(
            stats_lines(files, stats, numbers)[12],
            "Unshared/sharing ratio:"@,
            numbers.unshared_sharing_ratio@,
        ),
        names(stats_lines(files, stats, numbers)[14], "Pages sharing:"@, numbers.sharing_mib@),
        names(stats_lines(files, stats, numbers)[15], "Pages shared:"@, numbers.shared_mib@),
        names(stats_lines(files, stats, numbers)[16], "Pages unshared:"@, numbers.unshared_mib@),
        names(stats_lines(files, stats, numbers)[18], "General profit:"@, numbers.profit_mib@),
{
    reveal_strlit("Interval:                   ");
    reveal_strlit("Interval:");
    assert("Interval:                   "@.subrange(0, 9) =~= "Interval:"@);
    lemma_names(
        "Interval:                   "@,
        "Interval:"@,
        text::decimal(plain_number(files,
        "sleep_millisecs"@) as nat),
        " ms"@,
    );
    reveal_strlit("Sharing/shared ratio:       ");
    reveal_strlit("Sharing/shared ratio:");
    assert("Sharing/shared ratio:       "@.subrange(0, 21) =~= "Sharing/shared ratio:"@);
    lemma_names(
        "Sharing/shared ratio:       "@,
        "Sharing/shared ratio:"@,
        numbers.sharing_shared_ratio@,
        Seq::empty(),
    );
    assert("Sharing/shared ratio:       "@ + numbers.sharing_shared_ratio@ + Seq::<char>::empty()
        =~= "Sharing/shared ratio:       "@ + numbers.sharing_shared_ratio@);
    reveal_strlit("Unshared/sharing ratio:     ");
    reveal_strlit("Unshared/sharing ratio:");
    assert("Unshared/sharing ratio:     "@.subrange(0, 23) =~= "Unshared/sharing ratio:"@);
    lemma_names(
        "Unshared/sharing ratio:     "@,
        "Unshared/sharing ratio:"@,
        numbers.unshared_sharing_ratio@,
        Seq::empty(),
    );
    assert("Unshared/sharing ratio:     "@ + numbers.unshared_sharing_ratio@ + Seq::<char>::empty()
        =~= "Unshared/sharing ratio:     "@ + numbers.unshared_sharing_ratio@);
    reveal_strlit("Pages sharing:              ");
    reveal_strlit("Pages sharing:");
    assert("Pages sharing:              "@.subrange(0, 14) =~= "Pages sharing:"@);
    lemma_names("Pages sharing:              "@, "Pages sharing:"@, numbers.sharing_mib@, " MiB"@);
    reveal_strlit("Pages shared:               ");
    reveal_strlit("Pages shared:");
    assert("Pages shared:               "@.subrange(0, 13) =~= "Pages shared:"@);
    lemma_names("Pages shared:               "@, "Pages shared:"@, numbers.shared_mib@, " MiB"@);
    reveal_strlit("Pages unshared:             ");
    reveal_strlit("Pages unshared:");
    assert("Pages unshared:             "@.subrange(0, 15) =~= "Pages unshared:"@);
    lemma_names(
        "Pages unshared:             "@,
        "Pages unshared:"@,
        numbers.unshared_mib@,
        " MiB"@,
    );
    reveal_strlit("General profit:             ");
    reveal_strlit("General profit:");
    assert("General profit:             "@.subrange(0, 15) =~= "General profit:"@);
    lemma_names("General profit:             "@, "General profit:"@, numbers.profit_mib@, " MiB"@);
}

/// The statistics of the swap proxy name the ratio of duplicates.
pub proof fn law_proxy_statistics_name_the_ratio(
    stats: ProxyStats,
    table: DedupStats,
    ratio: Seq<char>,
)
    ensures
        names(proxy_lines(stats, table, ratio)[6], "  Dedup ratio:"@, ratio),
{
    reveal_strlit("  Dedup ratio:          ");
    reveal_strlit("  Dedup ratio:");
    assert("  Dedup ratio:          "@.subrange(0, 14) =~= "  Dedup ratio:"@);
    lemma_names("  Dedup ratio:          "@, "  Dedup ratio:"@, ratio, "%"@);
}

} // verus!
