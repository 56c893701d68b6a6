//! PSI (Pressure Stall Information) of the memory resource.
//!
//! Parses the kernel's pressure file and classifies the pressure. The averages
//! stay the texts that the kernel wrote; their numeric values are handed to the
//! classification as bit patterns.

use vstd::arithmetic::power2::*;
use vstd::prelude::*;
use vstd::string::StringExecFns;

use crate::error::ZramdedupError;
use crate::float_bits;
use crate::float_bits::Float32;
use crate::procfs;
use crate::text;
use crate::text::{
    chars_of, decimal_text, find_char, parse_u64, part, spells, split_lines, split_words,
    starts_with, string_of, trim,
};

verus! {

pub const PSI_MEMORY_PATH: &'static str = "/proc/pressure/memory";

/// Parsed PSI stats for a single resource.
#[derive(Debug, Clone)]
pub struct PsiStats {
    pub some: PsiLine,
    pub full: PsiLine,
}

/// One line of PSI data (some or full). The averages are texts of fractional
/// numbers; a text that is no number stands for zero.
#[derive(Debug, Clone)]
pub struct PsiLine {
    pub avg10: String,
    pub avg60: String,
    pub avg300: String,
    pub total: u64,
}

/// Classified pressure level, from the lowest to the highest.
#[derive(Debug, Clone, Copy, PartialEq, Eq, PartialOrd, Ord, Structural)]
pub enum PressureLevel {
    Idle,
    Low,
    Medium,
    High,
    Critical,
}

impl PressureLevel {
    /// The position of the level, from zero for the lowest.
    pub open spec fn rank(self) -> int {
        match self {
            PressureLevel::Idle => 0,
            PressureLevel::Low => 1,
            PressureLevel::Medium => 2,
            PressureLevel::High => 3,
            PressureLevel::Critical => 4,
        }
    }

    pub open spec fn spec_name(self) -> Seq<char> {
        match self {
            PressureLevel::Idle => "idle"@,
            PressureLevel::Low => "low"@,
            PressureLevel::Medium => "medium"@,
            PressureLevel::High => "high"@,
            PressureLevel::Critical => "critical"@,
        }
    }

    /// The name of the level.
    pub fn to_string(&self) -> (r: String)
        ensures
            r@ == self.spec_name(),
    {
        match self {
            PressureLevel::Idle => String::from_str("idle"),
            PressureLevel::Low => String::from_str("low"),
            PressureLevel::Medium => String::from_str("medium"),
            PressureLevel::High => String::from_str("high"),
            PressureLevel::Critical => String::from_str("critical"),
        }
    }
}

// ---------------------------------------------------------------------------
// Parsing
// ---------------------------------------------------------------------------

/// The contents of a line.
#[verifier::ext_equal]
pub struct PsiLineView {
    pub avg10: Seq<char>,
    pub avg60: Seq<char>,
    pub avg300: Seq<char>,
    pub total: u64,
}

/// The contents of both lines.
#[verifier::ext_equal]
pub struct PsiStatsView {
    pub some: PsiLineView,
    pub full: PsiLineView,
}

impl View for PsiLine {
    type V = PsiLineView;

    open spec fn view(&self) -> PsiLineView {
        PsiLineView {
            avg10: self.avg10@,
            avg60: self.avg60@,
            avg300: self.avg300@,
            total: self.total,
        }
    }
}

impl View for PsiStats {
    type V = PsiStatsView;

    open spec fn view(&self) -> PsiStatsView {
        PsiStatsView { some: self.some@, full: self.full@ }
    }
}

impl PsiLineView {
    /// A line without pressure.
    pub open spec fn zeroes() -> PsiLineView {
        PsiLineView { avg10: "0.0"@, avg60: "0.0"@, avg300: "0.0"@, total: 0 }
    }

    /// The line after one token was read: `key=value` sets a known field, and
    /// anything else is skipped.
    pub open spec fn with_token(self, token: Seq<char>) -> PsiLineView {
        match text::first_of(token, '=') {
            None => self,
            Some(i) => {
                let key = token.take(i);
                let value = token.skip(i + 1);
                if key == "avg10"@ {
                    PsiLineView { avg10: value, ..self }
                } else if key == "avg60"@ {
                    PsiLineView { avg60: value, ..self }
                } else if key == "avg300"@ {
                    PsiLineView { avg300: value, ..self }
                } else if key == "total"@ {
                    PsiLineView {
                        total: text::value_or(text::as_u64(text::unsigned_value(value, 10)), 0),
                        ..self
                    }
                } else {
                    self
                }
            },
        }
    }

    /// The line after all tokens were read, in order.
    pub open spec fn of_tokens(tokens: Seq<Seq<char>>) -> PsiLineView
        decreases tokens.len(),
    {
        if tokens.len() == 0 {
            PsiLineView::zeroes()
        } else {
            PsiLineView::of_tokens(tokens.drop_last()).with_token(tokens.last())
        }
    }

    /// The line that a text gives: its first word names it, the others are the
    /// tokens.
    pub open spec fn of_line(line: Seq<char>) -> PsiLineView {
        PsiLineView::of_tokens(after_first(text::words(line)))
    }
}

/// All words but the first, if there is one.
pub open spec fn after_first(words: Seq<Seq<char>>) -> Seq<Seq<char>> {
    if words.len() == 0 {
        words
    } else {
        words.skip(1)
    }
}

impl PsiStatsView {
    /// The stats after one line was read.
    pub open spec fn with_line(self, line: Seq<char>) -> PsiStatsView {
        let line = text::trimmed(line);
        if line.len() == 0 {
            self
        } else if text::has_prefix(line, "some"@) {
            PsiStatsView { some: PsiLineView::of_line(line), ..self }
        } else if text::has_prefix(line, "full"@) {
            PsiStatsView { full: PsiLineView::of_line(line), ..self }
        } else {
            self
        }
    }

    /// The stats after all lines were read, in order.
    pub open spec fn of_lines(lines: Seq<Seq<char>>) -> PsiStatsView
        decreases lines.len(),
    {
        if lines.len() == 0 {
            PsiStatsView { some: PsiLineView::zeroes(), full: PsiLineView::zeroes() }
        } else {
            PsiStatsView::of_lines(lines.drop_last()).with_line(lines.last())
        }
    }

    /// The stats that the content of a pressure file gives.
    pub open spec fn of_content(content: Seq<char>) -> PsiStatsView {
        PsiStatsView::of_lines(text::lines(content))
    }
}

impl Default for PsiLine {
    fn default() -> (r: Self)
        ensures
            r@ == PsiLineView::zeroes(),
    {
        PsiLine {
            avg10: String::from_str("0.0"),
            avg60: String::from_str("0.0"),
            avg300: String::from_str("0.0"),
            total: 0,
        }
    }
}

impl Default for PsiStats {
    fn default() -> (r: Self)
        ensures
            r@ == (PsiStatsView { some: PsiLineView::zeroes(), full: PsiLineView::zeroes() }),
    {
        PsiStats { some: PsiLine::default(), full: PsiLine::default() }
    }
}

impl PsiStats {
    /// The stats of the memory resource, from what reading its pressure file
    /// gave.
    pub fn read_memory(content: Result<String, String>) -> (r: Result<Self, ZramdedupError>)
        ensures
            match (content, r) {
                (Ok(content), Ok(stats)) => stats@ == PsiStatsView::of_content(content@),
                (Err(e), Err(ZramdedupError::Sysfs { path, source })) => {
                    path@ == PSI_MEMORY_PATH@ && source == e
                },
                _ => false,
            },
    {
        Self::read_from(PSI_MEMORY_PATH, content)
    }

    /// The stats from what reading an arbitrary pressure file gave.
    pub fn read_from(path: &str, content: Result<String, String>) -> (r: Result<
        Self,
        ZramdedupError,
    >)
        ensures
            match (content, r) {
                (Ok(content), Ok(stats)) => stats@ == PsiStatsView::of_content(content@),
                (Err(e), Err(ZramdedupError::Sysfs { path: p, source })) => p@ == path@ && source
                    == e,
                _ => false,
            },
    {
        match content {
            Ok(content) => Self::parse(content.as_str()),
            Err(source) => Err(ZramdedupError::Sysfs { path: String::from_str(path), source }),
        }
    }

    /// Parse PSI file content.
    ///
    /// Format:
    /// ```text
    /// some avg10=0.48 avg60=0.75 avg300=0.63 total=352754638
    /// full avg10=0.12 avg60=0.34 avg300=0.45 total=241562312
    /// ```
    pub fn parse(content: &str) -> (r: Result<Self, ZramdedupError>)
        ensures
            r matches Ok(stats) && stats@ == PsiStatsView::of_content(content@),
    {
        let chars = chars_of(content);
        let lines = split_lines(chars.as_slice());
        let mut stats = PsiStats::default();
        let ghost all = text::views(lines@);
        let mut i: usize = 0;
        assert(all.take(0) =~= Seq::<Seq<char>>::empty());
        while i < lines.len()
            invariant
                i <= lines.len(),
                all == text::views(lines@),
                stats@ == PsiStatsView::of_lines(all.take(i as int)),
            decreases lines.len() - i,
        {
            assert(all.take(i + 1).drop_last() =~= all.take(i as int));
            assert(all.take(i + 1).last() == lines@[i as int]@);
            let line = trim(lines[i]);
            i += 1;
            if line.len() == 0 {
                continue;
            }
            let parsed = Self::parse_line(line);
            if starts_with(line, "some") {
                stats.some = parsed;
            } else if starts_with(line, "full") {
                stats.full = parsed;
            }
        }
        assert(all.take(i as int) =~= all);
        Ok(stats)
    }

    fn parse_line(line: &[char]) -> (r: PsiLine)
        ensures
            r@ == PsiLineView::of_line(line@),
    {
        let words = split_words(line);
        let mut psi_line = PsiLine::default();
        let ghost tokens = after_first(text::words(line@));
        let mut i: usize = 1;
        assert(tokens.take(0) =~= Seq::<Seq<char>>::empty());
        while i < words.len()
            invariant
                1 <= i,
                i <= words.len() || i == 1,
                text::views(words@) == text::words(line@),
                tokens == after_first(text::words(line@)),
                psi_line@ == PsiLineView::of_tokens(tokens.take(i - 1)),
            decreases words.len() - i,
        {
            let token = words[i];
            assert(tokens.take(i as int).drop_last() =~= tokens.take(i - 1));
            assert(tokens.take(i as int).last() == token@);
            if let Some(at) = find_char(token, '=') {
                let key = part(token, 0, at);
                let value = part(token, at + 1, token.len());
                assert(key@ =~= token@.take(at as int));
                assert(value@ =~= token@.skip(at + 1));
                if spells(key, "avg10") {
                    psi_line.avg10 = string_of(value);
                } else if spells(key, "avg60") {
                    psi_line.avg60 = string_of(value);
                } else if spells(key, "avg300") {
                    psi_line.avg300 = string_of(value);
                } else if spells(key, "total") {
                    psi_line.total = match parse_u64(value) {
                        Some(n) => n,
                        None => 0,
                    };
                }
            }
            i += 1;
        }
        assert(tokens.take(i - 1) =~= tokens);
        psi_line
    }

    /// The pressure level for the given readings.
    pub open spec fn level_of(
        score: Float32,
        some_avg10: Float32,
        full_avg10: Float32,
        some_threshold: Float32,
        full_limit: Float32,
    ) -> PressureLevel {
        if (Float32 { bits: float_bits::TWENTY }).at_most(score) {
            PressureLevel::Critical
        } else if (Float32 { bits: float_bits::TEN }).at_most(score) || full_limit.at_most(
            full_avg10,
        ) {
            PressureLevel::High
        } else if (Float32 { bits: float_bits::FIVE }).at_most(score) || some_threshold.at_most(
            some_avg10,
        ) {
            PressureLevel::Medium
        } else if (Float32 { bits: float_bits::HALF }).at_most(score) {
            PressureLevel::Low
        } else {
            PressureLevel::Idle
        }
    }

    /// Classify pressure into a level using configurable thresholds. `score` is
    /// the weighted mean of the two ten-second averages, 0.7 of the full and 0.3
    /// of the some line; `full_limit` is twice the full threshold.
    pub fn classify(
        score: Float32,
        some_avg10: Float32,
        full_avg10: Float32,
        some_threshold: Float32,
        full_limit: Float32,
    ) -> (r: PressureLevel)
        ensures
            r == Self::level_of(score, some_avg10, full_avg10, some_threshold, full_limit),
    {
        if score.at_least(Float32 { bits: float_bits::TWENTY }) {
            PressureLevel::Critical
        } else if score.at_least(Float32 { bits: float_bits::TEN }) || full_avg10.at_least(
            full_limit,
        ) {
            PressureLevel::High
        } else if score.at_least(Float32 { bits: float_bits::FIVE }) || some_avg10.at_least(
            some_threshold,
        ) {
            PressureLevel::Medium
        } else if score.at_least(Float32 { bits: float_bits::HALF }) {
            PressureLevel::Low
        } else {
            PressureLevel::Idle
        }
    }
}

/// More pressure never lowers the level.
pub proof fn law_classification_is_monotone(
    score: Float32,
    some: Float32,
    full: Float32,
    score2: Float32,
    some2: Float32,
    full2: Float32,
    some_threshold: Float32,
    full_limit: Float32,
)
    requires
        score.at_most(score2),
        some.at_most(some2),
        full.at_most(full2),
    ensures
        PsiStats::level_of(score, some, full, some_threshold, full_limit).rank()
            <= PsiStats::level_of(score2, some2, full2, some_threshold, full_limit).rank(),
{
}

// ---------------------------------------------------------------------------
// Triggers
// ---------------------------------------------------------------------------

#[derive(Debug, Clone, Copy, PartialEq, Eq, Structural)]
pub enum PsiTriggerKind {
    /// At least one task stalls.
    SomeTasks,
    /// All tasks stall.
    Full,
}

/// PSI trigger for event-driven monitoring.
///
/// Triggers are **edge-triggered**: after each event the trigger must be re-armed
/// by writing its text again.
#[derive(Debug)]
pub struct PsiTrigger {
    pub kind: PsiTriggerKind,
    pub threshold_us: u64,
    pub window_us: u64,
    /// The trigger text (kept for re-arming).
    pub trigger_str: String,
}

impl PsiTrigger {
    /// A trigger for stalls of `threshold_us` within `window_us`.
    pub fn new(kind: PsiTriggerKind, threshold_us: u64, window_us: u64) -> (r: Self)
        ensures
            r.kind == kind,
            r.threshold_us == threshold_us,
            r.window_us == window_us,
            r.trigger_str@ == (match kind {
                PsiTriggerKind::SomeTasks => "some"@,
                PsiTriggerKind::Full => "full"@,
            }) + " "@ + text::decimal(threshold_us as nat) + " "@ + text::decimal(window_us as nat),
    {
        let mut trigger_str = match kind {
            PsiTriggerKind::SomeTasks => String::from_str("some"),
            PsiTriggerKind::Full => String::from_str("full"),
        };
        trigger_str.append(" ");
        trigger_str.append(decimal_text(threshold_us).as_str());
        trigger_str.append(" ");
        trigger_str.append(decimal_text(window_us).as_str());
        PsiTrigger { kind, threshold_us, window_us, trigger_str }
    }

    /// The text that has to be written, first to arm the trigger and then again
    /// after each event.
    pub fn rearm(&self) -> (r: &str)
        ensures
            r@ == self.trigger_str@,
    {
        self.trigger_str.as_str()
    }
}

// ---------------------------------------------------------------------------
// Laws
// ---------------------------------------------------------------------------

/// The thresholds of the classification, as numbers: a score of twenty is critical, one of
/// ten high, one of five medium and one of a half low. The full average makes it at least
/// high where it reaches its limit, and the partial one at least medium.
pub proof fn law_scores_have_their_levels(
    score: Float32,
    some: Float32,
    full: Float32,
    threshold: Float32,
    limit: Float32,
)
    requires
        !score.is_nan(),
    ensures
        ({
            let level = PsiStats::level_of(score, some, full, threshold, limit);
            let s = float_bits::scaled(score);
            let one = pow2(149);
            &&& level.rank() >= 4 <==> s >= 20 * one
            &&& level.rank() >= 3 <==> s >= 10 * one || limit.at_most(full)
            &&& level.rank() >= 2 <==> s >= 5 * one || limit.at_most(full) || threshold.at_most(some)
            &&& level.rank() >= 1 <==> 2 * s >= one || limit.at_most(full) || threshold.at_most(
                some,
            )
        }),
{
    float_bits::law_named_numbers_have_their_values();
    lemma_pow2_pos(149);
    float_bits::law_comparisons_follow_the_numbers(Float32 { bits: float_bits::TWENTY }, score);
    float_bits::law_comparisons_follow_the_numbers(Float32 { bits: float_bits::TEN }, score);
    float_bits::law_comparisons_follow_the_numbers(Float32 { bits: float_bits::FIVE }, score);
    float_bits::law_comparisons_follow_the_numbers(Float32 { bits: float_bits::HALF }, score);
}

/// The levels have their order, from idle to critical, and their names.
pub proof fn law_levels_have_their_names()
    ensures
        PressureLevel::Idle.rank() == 0 && PressureLevel::Idle.spec_name() == "idle"@,
        PressureLevel::Low.rank() == 1 && PressureLevel::Low.spec_name() == "low"@,
        PressureLevel::Medium.rank() == 2 && PressureLevel::Medium.spec_name() == "medium"@,
        PressureLevel::High.rank() == 3 && PressureLevel::High.spec_name() == "high"@,
        PressureLevel::Critical.rank() == 4 && PressureLevel::Critical.spec_name() == "critical"@,
{
}

/// The values of a pressure line have their meaning: each sets one field and leaves the
/// others; without a value all averages are "0.0" and the total is zero.
pub proof fn law_values_have_their_meaning(
    line: PsiLineView,
    value: Seq<char>,
    n: u64,
    token: Seq<char>,
)
    ensures
        line.with_token("avg10"@ + seq!['='] + value) == (PsiLineView { avg10: value, ..line }),
        line.with_token("avg60"@ + seq!['='] + value) == (PsiLineView { avg60: value, ..line }),
        line.with_token("avg300"@ + seq!['='] + value) == (PsiLineView { avg300: value, ..line }),
        line.with_token("total"@ + seq!['='] + text::decimal(n as nat)) == (PsiLineView {
            total: n,
            ..line
        }),
        !token.contains('=') ==> line.with_token(token) == line,
        PsiLineView::of_tokens(Seq::empty()) == (PsiLineView {
            avg10: "0.0"@,
            avg60: "0.0"@,
            avg300: "0.0"@,
            total: 0,
        }),
{
    reveal_strlit("avg10");
    reveal_strlit("avg60");
    reveal_strlit("avg300");
    reveal_strlit("total");
    assert("avg10"@.len() == 5 && "avg10"@[3] == '1');
    assert("avg60"@.len() == 5 && "avg60"@[3] == '6');
    assert("avg300"@.len() == 6);
    assert("total"@.len() == 5 && "total"@[0] == 't' && "avg10"@[0] == 'a' && "avg60"@[0] == 'a');
    let d = text::decimal(n as nat);
    text::law_decimal_round_trip(n);
    lemma_token("avg10"@, value);
    lemma_token("avg60"@, value);
    lemma_token("avg300"@, value);
    lemma_token("total"@, d);
    if !token.contains('=') {
        text::law_first_place(token, '=', token);
    }
}

proof fn lemma_token(key: Seq<char>, value: Seq<char>)
    requires
        !key.contains('='),
    ensures
        ({
            let token = key + seq!['='] + value;
            &&& text::first_of(token, '=') == Some(key.len() as int)
            &&& token.take(key.len() as int) == key
            &&& token.skip((key.len() + 1) as int) == value
        }),
{
    let token = key + seq!['='] + value;
    text::law_first_place(key, '=', value);
    assert(token.take(key.len() as int) =~= key);
    assert(token.skip((key.len() + 1) as int) =~= value);
}

/// A pressure line that was written is read back: the kind, the three averages and the
/// total, with single spaces between them.
pub proof fn law_pressure_lines_are_read_back(
    stats: PsiStatsView,
    avg10: Seq<char>,
    avg60: Seq<char>,
    avg300: Seq<char>,
    total: u64,
)
    requires
        procfs::is_one_word(avg10),
        procfs::is_one_word(avg60),
        procfs::is_one_word(avg300),
    ensures
        ({
            let values = ("avg10"@ + seq!['='] + avg10) + seq![' '] + (("avg60"@ + seq!['=']
                + avg60) + seq![' '] + (("avg300"@ + seq!['='] + avg300) + seq![' '] + ("total"@
                + seq!['='] + text::decimal(total as nat))));
            let read = PsiLineView { avg10, avg60, avg300, total };
            &&& stats.with_line("some"@ + seq![' '] + values) == (PsiStatsView {
                some: read,
                ..stats
            })
            &&& stats.with_line("full"@ + seq![' '] + values) == (PsiStatsView {
                full: read,
                ..stats
            })
        }),
{
    reveal_strlit("some");
    reveal_strlit("full");
    reveal_strlit("avg10");
    reveal_strlit("avg60");
    reveal_strlit("avg300");
    reveal_strlit("total");
    let d = text::decimal(total as nat);
    text::lemma_decimal_digits(total as nat);
    let t1 = "avg10"@ + seq!['='] + avg10;
    let t2 = "avg60"@ + seq!['='] + avg60;
    let t3 = "avg300"@ + seq!['='] + avg300;
    let t4 = "total"@ + seq!['='] + d;
    assert(procfs::is_one_word(d)) by {
        assert forall|i: int| 0 <= i < d.len() implies !text::is_white(#[trigger] d[i]) by {
            assert(0x30 <= d[i] as u32 <= 0x39);
        }
    }
    lemma_token_is_word("avg10"@, avg10);
    lemma_token_is_word("avg60"@, avg60);
    lemma_token_is_word("avg300"@, avg300);
    lemma_token_is_word("total"@, d);
    let r3 = t3 + seq![' '] + t4;
    let r2 = t2 + seq![' '] + r3;
    let values = t1 + seq![' '] + r2;
    text::law_white_space_separates_words(t4, ' ', t4);
    text::law_white_space_separates_words(t3, ' ', t4);
    text::law_white_space_separates_words(t2, ' ', r3);
    text::law_white_space_separates_words(t1, ' ', r2);
    let tokens = seq![t1, t2, t3, t4];
    assert(text::words(values) =~= tokens);
    let e = PsiLineView::zeroes();
    let s0 = Seq::<Seq<char>>::empty();
    assert(seq![t1].drop_last() =~= s0);
    assert(seq![t1, t2].drop_last() =~= seq![t1]);
    assert(seq![t1, t2, t3].drop_last() =~= seq![t1, t2]);
    assert(tokens.drop_last() =~= seq![t1, t2, t3]);
    let r = PsiLineView::of_tokens(s0);
    assert(r == e);
    let l1 = PsiLineView::of_tokens(seq![t1]);
    assert(l1 == e.with_token(t1));
    let l2 = PsiLineView::of_tokens(seq![t1, t2]);
    assert(l2 == l1.with_token(t2));
    let l3 = PsiLineView::of_tokens(seq![t1, t2, t3]);
    assert(l3 == l2.with_token(t3));
    let l4 = PsiLineView::of_tokens(tokens);
    assert(l4 == l3.with_token(t4));
    law_values_have_their_meaning(e, avg10, total, t1);
    law_values_have_their_meaning(l1, avg60, total, t1);
    law_values_have_their_meaning(l2, avg300, total, t1);
    law_values_have_their_meaning(l3, avg300, total, t1);
    lemma_kind("some"@, values);
    lemma_kind("full"@, values);
    assert(values.last() == t4.last());
    assert(t4.last() == d.last());
    let some = "some"@ + seq![' '] + values;
    let full = "full"@ + seq![' '] + values;
    assert(some[0] == 's' && full[0] == 'f');
    assert(!text::is_white(d[d.len() - 1]));
    assert(some.last() == d.last() && full.last() == d.last());
    text::lemma_trimmed_fixed(some);
    text::lemma_trimmed_fixed(full);
    assert(some.subrange(0, 4) =~= "some"@);
    assert(full.subrange(0, 4) =~= "full"@);
    assert(full.subrange(0, 4)[0] != "some"@[0]);
}

proof fn lemma_kind(kind: Seq<char>, values: Seq<char>)
    requires
        procfs::is_one_word(kind),
    ensures
        after_first(text::words(kind + seq![' '] + values)) == text::words(values),
{
    text::law_white_space_separates_words(kind, ' ', values);
    assert((seq![kind] + text::words(values)).skip(1) =~= text::words(values));
}

proof fn lemma_token_is_word(key: Seq<char>, value: Seq<char>)
    requires
        procfs::is_one_word(key),
        procfs::is_one_word(value),
    ensures
        procfs::is_one_word(key + seq!['='] + value),
{
    let token = key + seq!['='] + value;
    assert forall|i: int| 0 <= i < token.len() implies !text::is_white(#[trigger] token[i]) by {
        if i < key.len() {
            assert(!text::is_white(key[i]));
        } else if i > key.len() {
            assert(!text::is_white(value[i - key.len() - 1]));
        }
    }
}

/// A line of another kind changes nothing, and without a line everything is zero.
pub proof fn law_other_pressure_lines_are_skipped(
    stats: PsiStatsView,
    lines: Seq<Seq<char>>,
    line: Seq<char>,
)
    ensures
        !text::has_prefix(text::trimmed(line), "some"@) && !text::has_prefix(
            text::trimmed(line),
            "full"@,
        ) ==> stats.with_line(line) == stats,
        PsiStatsView::of_lines(lines.push(line)) == PsiStatsView::of_lines(lines).with_line(line),
        PsiStatsView::of_lines(Seq::empty()) == (PsiStatsView {
            some: PsiLineView { avg10: "0.0"@, avg60: "0.0"@, avg300: "0.0"@, total: 0 },
            full: PsiLineView { avg10: "0.0"@, avg60: "0.0"@, avg300: "0.0"@, total: 0 },
        }),
{
    assert(lines.push(line).drop_last() =~= lines);
}

} // verus!
