//! Configuration of the daemon and of the swap proxy.

use vstd::arithmetic::power2::*;
use vstd::prelude::*;
use vstd::string::StringExecFns;

use crate::float_bits;
use crate::float_bits::{Float32, Float64};
use crate::text;

verus! {

/// Top-level configuration.
#[derive(Debug)]
pub struct ZramdedupConfig {
    pub general: GeneralConfig,
    pub governor: GovernorConfig,
    pub scanner: ScannerConfig,
    pub swap_proxy: SwapProxyConfig,
}

#[derive(Debug, Clone)]
pub struct GeneralConfig {
    pub log_level: String,
    pub poll_interval_ms: u64,
    pub state_dir: String,
}

#[derive(Debug)]
pub struct GovernorConfig {
    pub enabled: bool,
    /// When true, the kernel advisor controls the scan rate and the governor
    /// only biases max_page_sharing and the sleep bounds. When false, the
    /// governor controls all KSM parameters.
    pub use_advisor: bool,
    pub psi_some_threshold: Float32,
    pub psi_full_threshold: Float32,
    pub advisor_scan_time_range: (u64, u64),
    pub max_page_sharing_range: (u32, u32),
    pub hysteresis_readings: u32,
    pub min_level_duration_secs: u64,
    /// Stabilization window (seconds): minimum time between repeated actions
    /// within the same tier. Governor and scanner keep separate timestamps so
    /// one tier cannot starve another.
    pub stabilization_secs: u64,
    /// Path to KSM sysfs directory.
    pub ksm_path: String,
}

#[derive(Debug, Clone)]
pub struct ScannerConfig {
    pub enabled: bool,
    pub interval_secs: u64,
    pub min_anon_rss_mb: u64,
    pub duplicate_ratio_threshold: Float32,
    pub max_mergeable_per_process_mb: u64,
    pub blocklist: Vec<String>,
    pub target_cgroups: Vec<String>,
    /// Maximum number of processes to apply madvise to per scan cycle.
    /// Limits CPU overhead from syscall bursts.
    pub max_candidates_per_cycle: usize,
}

#[derive(Debug, Clone)]
pub struct SwapProxyConfig {
    pub enabled: bool,
    pub device_size_gb: u64,
    pub fingerprint: String,
    pub dedup_table_max_entries: u64,
    pub zram_backend: String,
    pub bloom_capacity: usize,
    pub bloom_false_positive_rate: Float64,
    pub page_store_path: String,
}

/// A value that is outside its safe range.
#[derive(Debug, Clone, Copy, PartialEq, Eq, Structural)]
pub enum ConfigError {
    PsiSomeThreshold,
    PsiFullThreshold,
    AdvisorScanTimeRange,
    MaxPageSharingRange,
    MinAnonRss,
    DuplicateRatioThreshold,
    DeviceSize,
    DedupTableMaxEntries,
}

impl ConfigError {
    pub open spec fn spec_message(self) -> Seq<char> {
        match self {
            ConfigError::PsiSomeThreshold =>
                "governor.psi_some_threshold must be between 0 and 100"@,
            ConfigError::PsiFullThreshold =>
                "governor.psi_full_threshold must be between 0 and 100"@,
            ConfigError::AdvisorScanTimeRange =>
                "governor.advisor_scan_time_range: min must be < max"@,
            ConfigError::MaxPageSharingRange =>
                "governor.max_page_sharing_range: min must be < max"@,
            ConfigError::MinAnonRss => "scanner.min_anon_rss_mb must be > 0"@,
            ConfigError::DuplicateRatioThreshold =>
                "scanner.duplicate_ratio_threshold must be in (0, 1]"@,
            ConfigError::DeviceSize => "swap_proxy.device_size_gb must be > 0"@,
            ConfigError::DedupTableMaxEntries =>
                "swap_proxy.dedup_table_max_entries must be > 0"@,
        }
    }

    /// The message shown to the user.
    pub fn message(&self) -> (r: String)
        ensures
            r@ == self.spec_message(),
    {
        match self {
            ConfigError::PsiSomeThreshold => String::from_str(
                "governor.psi_some_threshold must be between 0 and 100",
            ),
            ConfigError::PsiFullThreshold => String::from_str(
                "governor.psi_full_threshold must be between 0 and 100",
            ),
            ConfigError::AdvisorScanTimeRange => String::from_str(
                "governor.advisor_scan_time_range: min must be < max",
            ),
            ConfigError::MaxPageSharingRange => String::from_str(
                "governor.max_page_sharing_range: min must be < max",
            ),
            ConfigError::MinAnonRss => String::from_str("scanner.min_anon_rss_mb must be > 0"),
            ConfigError::DuplicateRatioThreshold => String::from_str(
                "scanner.duplicate_ratio_threshold must be in (0, 1]",
            ),
            ConfigError::DeviceSize => String::from_str("swap_proxy.device_size_gb must be > 0"),
            ConfigError::DedupTableMaxEntries => String::from_str(
                "swap_proxy.dedup_table_max_entries must be > 0",
            ),
        }
    }
}

impl GovernorConfig {
    /// The first governor setting that is out of range.
    pub open spec fn problem(&self) -> Option<ConfigError> {
        if self.psi_some_threshold.below(Float32 { bits: float_bits::ZERO }) || (Float32 { bits: float_bits::HUNDRED }).below(
            self.psi_some_threshold,
        ) {
            Some(ConfigError::PsiSomeThreshold)
        } else if self.psi_full_threshold.below(Float32 { bits: float_bits::ZERO }) || (Float32 { bits: float_bits::HUNDRED }).below(
            self.psi_full_threshold,
        ) {
            Some(ConfigError::PsiFullThreshold)
        } else if self.advisor_scan_time_range.0 >= self.advisor_scan_time_range.1 {
            Some(ConfigError::AdvisorScanTimeRange)
        } else if self.max_page_sharing_range.0 >= self.max_page_sharing_range.1 {
            Some(ConfigError::MaxPageSharingRange)
        } else {
            None
        }
    }
}

impl ScannerConfig {
    /// The first scanner setting that is out of range.
    pub open spec fn problem(&self) -> Option<ConfigError> {
        if self.min_anon_rss_mb == 0 {
            Some(ConfigError::MinAnonRss)
        } else if self.duplicate_ratio_threshold.at_most(Float32 { bits: float_bits::ZERO })
            || (Float32 { bits: float_bits::ONE }).below(self.duplicate_ratio_threshold) {
            Some(ConfigError::DuplicateRatioThreshold)
        } else {
            None
        }
    }
}

impl SwapProxyConfig {
    /// The first swap proxy setting that is out of range.
    pub open spec fn problem(&self) -> Option<ConfigError> {
        if self.device_size_gb == 0 {
            Some(ConfigError::DeviceSize)
        } else if self.dedup_table_max_entries == 0 {
            Some(ConfigError::DedupTableMaxEntries)
        } else {
            None
        }
    }
}

impl ZramdedupConfig {
    /// The first setting that is out of range, in the order of the sections.
    pub open spec fn problem(&self) -> Option<ConfigError> {
        match self.governor.problem() {
            Some(e) => Some(e),
            None => match self.scanner.problem() {
                Some(e) => Some(e),
                None => self.swap_proxy.problem(),
            },
        }
    }

    /// Validate configuration values are within safe ranges.
    pub fn validate(&self) -> (r: Result<(), ConfigError>)
        ensures
            r == (match self.problem() {
                Some(e) => Err::<(), ConfigError>(e),
                None => Ok(()),
            }),
    {
        let governor = &self.governor;
        if governor.psi_some_threshold.less(Float32 { bits: float_bits::ZERO }) || (Float32 { bits: float_bits::HUNDRED }).less(
            governor.psi_some_threshold,
        ) {
            return Err(ConfigError::PsiSomeThreshold);
        }
        if governor.psi_full_threshold.less(Float32 { bits: float_bits::ZERO }) || (Float32 { bits: float_bits::HUNDRED }).less(
            governor.psi_full_threshold,
        ) {
            return Err(ConfigError::PsiFullThreshold);
        }
        if governor.advisor_scan_time_range.0 >= governor.advisor_scan_time_range.1 {
            return Err(ConfigError::AdvisorScanTimeRange);
        }
        if governor.max_page_sharing_range.0 >= governor.max_page_sharing_range.1 {
            return Err(ConfigError::MaxPageSharingRange);
        }
        if self.scanner.min_anon_rss_mb == 0 {
            return Err(ConfigError::MinAnonRss);
        }
        let ratio = self.scanner.duplicate_ratio_threshold;
        if (Float32 { bits: float_bits::ZERO }).at_least(ratio) || (Float32 { bits: float_bits::ONE }).less(ratio) {
            return Err(ConfigError::DuplicateRatioThreshold);
        }
        if self.swap_proxy.device_size_gb == 0 {
            return Err(ConfigError::DeviceSize);
        }
        if self.swap_proxy.dedup_table_max_entries == 0 {
            return Err(ConfigError::DedupTableMaxEntries);
        }
        Ok(())
    }
}

impl Default for ZramdedupConfig {
    fn default() -> (r: Self)
        ensures
            r.problem() is None,
            r.general.is_default(),
            r.governor.is_default(),
            r.scanner.is_default(),
            r.swap_proxy.is_default(),
    {
        ZramdedupConfig {
            general: GeneralConfig::default(),
            governor: GovernorConfig::default(),
            scanner: ScannerConfig::default(),
            swap_proxy: SwapProxyConfig::default(),
        }
    }
}

impl GeneralConfig {
    pub open spec fn is_default(&self) -> bool {
        &&& self.log_level@ == "info"@
        &&& self.poll_interval_ms == 2000
        &&& self.state_dir@ == "/var/lib/zramdedup"@
    }
}

impl Default for GeneralConfig {
    fn default() -> (r: Self)
        ensures
            r.is_default(),
    {
        GeneralConfig {
            log_level: String::from_str("info"),
            poll_interval_ms: 2000,
            state_dir: String::from_str("/var/lib/zramdedup"),
        }
    }
}

impl GovernorConfig {
    pub open spec fn is_default(&self) -> bool {
        &&& self.enabled
        &&& self.use_advisor
        &&& self.psi_some_threshold == (Float32 { bits: float_bits::FIVE })
        &&& self.psi_full_threshold == (Float32 { bits: float_bits::TWO })
        &&& self.advisor_scan_time_range == (30u64, 600u64)
        &&& self.max_page_sharing_range == (256u32, 1024u32)
        &&& self.hysteresis_readings == 4
        &&& self.min_level_duration_secs == 30
        &&& self.stabilization_secs == 30
        &&& self.ksm_path@ == "/sys/kernel/mm/ksm"@
    }
}

impl Default for GovernorConfig {
    fn default() -> (r: Self)
        ensures
            r.is_default(),
    {
        GovernorConfig {
            enabled: true,
            use_advisor: true,
            psi_some_threshold: Float32 { bits: float_bits::FIVE },
            psi_full_threshold: Float32 { bits: float_bits::TWO },
            advisor_scan_time_range: (30, 600),
            max_page_sharing_range: (256, 1024),
            hysteresis_readings: 4,
            min_level_duration_secs: 30,
            stabilization_secs: 30,
            ksm_path: String::from_str("/sys/kernel/mm/ksm"),
        }
    }
}

impl ScannerConfig {
    pub open spec fn is_default(&self) -> bool {
        &&& self.enabled
        &&& self.interval_secs == 30
        &&& self.min_anon_rss_mb == 100
        &&& self.duplicate_ratio_threshold == (Float32 { bits: float_bits::FIFTEEN_HUNDREDTHS })
        &&& self.max_mergeable_per_process_mb == 512
        &&& text::strings(self.blocklist@) == seq!["zramdedup"@, "ksmd"@, "systemd"@, "sshd"@]
        &&& self.target_cgroups@.len() == 0
        &&& self.max_candidates_per_cycle == 5
    }
}

impl Default for ScannerConfig {
    fn default() -> (r: Self)
        ensures
            r.is_default(),
    {
        let mut blocklist: Vec<String> = Vec::new();
        blocklist.push(String::from_str("zramdedup"));
        blocklist.push(String::from_str("ksmd"));
        blocklist.push(String::from_str("systemd"));
        blocklist.push(String::from_str("sshd"));
        assert(text::strings(blocklist@) =~= seq!["zramdedup"@, "ksmd"@, "systemd"@, "sshd"@]);
        ScannerConfig {
            enabled: true,
            interval_secs: 30,
            min_anon_rss_mb: 100,
            duplicate_ratio_threshold: Float32 { bits: float_bits::FIFTEEN_HUNDREDTHS },
            max_mergeable_per_process_mb: 512,
            blocklist,
            target_cgroups: Vec::new(),
            max_candidates_per_cycle: 5,
        }
    }
}

impl SwapProxyConfig {
    pub open spec fn is_default(&self) -> bool {
        &&& !self.enabled
        &&& self.device_size_gb == 8
        &&& self.fingerprint@ == "xxh3-128"@
        &&& self.dedup_table_max_entries == 1_000_000
        &&& self.zram_backend@ == "/dev/zram0"@
        &&& self.bloom_capacity == 1_000_000
        &&& self.bloom_false_positive_rate == (Float64 { bits: float_bits::ONE_HUNDREDTH })
        &&& self.page_store_path@ == "/var/lib/zramdedup/pagestore.dat"@
    }
}

impl Default for SwapProxyConfig {
    fn default() -> (r: Self)
        ensures
            r.is_default(),
    {
        SwapProxyConfig {
            enabled: false,
            device_size_gb: 8,
            fingerprint: String::from_str("xxh3-128"),
            dedup_table_max_entries: 1_000_000,
            zram_backend: String::from_str("/dev/zram0"),
            bloom_capacity: 1_000_000,
            bloom_false_positive_rate: Float64 { bits: float_bits::ONE_HUNDREDTH },
            page_store_path: String::from_str("/var/lib/zramdedup/pagestore.dat"),
        }
    }
}

// ---------------------------------------------------------------------------
// Laws
// ---------------------------------------------------------------------------

/// The settings of the governor are accepted exactly if neither threshold is below zero or
/// above a hundred and both ranges rise. The first of these that fails is reported.
pub proof fn law_governor_settings(c: &GovernorConfig)
    requires
        !c.psi_some_threshold.is_nan(),
        !c.psi_full_threshold.is_nan(),
    ensures
        ({
            let some = float_bits::scaled(c.psi_some_threshold);
            let full = float_bits::scaled(c.psi_full_threshold);
            let top = 100 * pow2(149);
            let some_ok = 0 <= some <= top;
            let full_ok = 0 <= full <= top;
            let times_ok = c.advisor_scan_time_range.0 < c.advisor_scan_time_range.1;
            let sharing_ok = c.max_page_sharing_range.0 < c.max_page_sharing_range.1;
            &&& c.problem() is None <==> some_ok && full_ok && times_ok && sharing_ok
            &&& c.problem() == Some(ConfigError::PsiSomeThreshold) <==> !some_ok
            &&& c.problem() == Some(ConfigError::PsiFullThreshold) <==> some_ok && !full_ok
            &&& c.problem() == Some(ConfigError::AdvisorScanTimeRange) <==> some_ok && full_ok
                && !times_ok
            &&& c.problem() == Some(ConfigError::MaxPageSharingRange) <==> some_ok && full_ok
                && times_ok && !sharing_ok
        }),
{
    let zero = Float32 { bits: float_bits::ZERO };
    let hundred = Float32 { bits: float_bits::HUNDRED };
    float_bits::law_named_numbers_have_their_values();
    float_bits::law_comparisons_follow_the_numbers(c.psi_some_threshold, zero);
    float_bits::law_comparisons_follow_the_numbers(hundred, c.psi_some_threshold);
    float_bits::law_comparisons_follow_the_numbers(c.psi_full_threshold, zero);
    float_bits::law_comparisons_follow_the_numbers(hundred, c.psi_full_threshold);
}

/// The settings of the scanner are accepted exactly if the least size is not zero and the
/// ratio is above zero and at most one.
pub proof fn law_scanner_settings(c: &ScannerConfig)
    requires
        !c.duplicate_ratio_threshold.is_nan(),
    ensures
        ({
            let ratio = float_bits::scaled(c.duplicate_ratio_threshold);
            let ratio_ok = 0 < ratio <= pow2(149);
            &&& c.problem() is None <==> c.min_anon_rss_mb > 0 && ratio_ok
            &&& c.problem() == Some(ConfigError::MinAnonRss) <==> c.min_anon_rss_mb == 0
            &&& c.problem() == Some(ConfigError::DuplicateRatioThreshold) <==> c.min_anon_rss_mb > 0
                && !ratio_ok
        }),
{
    let zero = Float32 { bits: float_bits::ZERO };
    let one = Float32 { bits: float_bits::ONE };
    float_bits::law_named_numbers_have_their_values();
    float_bits::law_comparisons_follow_the_numbers(c.duplicate_ratio_threshold, zero);
    float_bits::law_comparisons_follow_the_numbers(one, c.duplicate_ratio_threshold);
}

/// The settings of the swap proxy are accepted exactly if neither the device nor the table
/// has size zero.
pub proof fn law_swap_proxy_settings(c: &SwapProxyConfig)
    ensures
        c.problem() is None <==> c.device_size_gb > 0 && c.dedup_table_max_entries > 0,
        c.problem() == Some(ConfigError::DeviceSize) <==> c.device_size_gb == 0,
        c.problem() == Some(ConfigError::DedupTableMaxEntries) <==> c.device_size_gb > 0
            && c.dedup_table_max_entries == 0,
{
}

/// A configuration is accepted exactly if each of its parts is, and the first part with a
/// problem is the one that is reported.
pub proof fn law_all_settings_count(c: &ZramdedupConfig)
    ensures
        c.problem() is None <==> c.governor.problem() is None && c.scanner.problem() is None
            && c.swap_proxy.problem() is None,
        c.governor.problem() is Some ==> c.problem() == c.governor.problem(),
        c.governor.problem() is None && c.scanner.problem() is Some ==> c.problem()
            == c.scanner.problem(),
        c.governor.problem() is None && c.scanner.problem() is None ==> c.problem()
            == c.swap_proxy.problem(),
{
}

/// The defaults are accepted.
pub proof fn law_defaults_are_accepted(c: &ZramdedupConfig)
    requires
        c.general.is_default(),
        c.governor.is_default(),
        c.scanner.is_default(),
        c.swap_proxy.is_default(),
    ensures
        c.problem() is None,
        c.general.poll_interval_ms == 2000,
        c.general.log_level@ == "info"@,
        c.general.state_dir@ == "/var/lib/zramdedup"@,
        c.governor.enabled && c.scanner.enabled,
        c.governor.ksm_path@ == "/sys/kernel/mm/ksm"@,
        c.scanner.target_cgroups@.len() == 0,
        c.swap_proxy.fingerprint@ == "xxh3-128"@,
        c.swap_proxy.zram_backend@ == "/dev/zram0"@,
        c.swap_proxy.page_store_path@ == "/var/lib/zramdedup/pagestore.dat"@,
        c.governor.use_advisor,
        c.governor.advisor_scan_time_range == (30u64, 600u64),
        c.governor.max_page_sharing_range == (256u32, 1024u32),
        c.governor.hysteresis_readings == 4,
        c.governor.min_level_duration_secs == 30,
        c.governor.stabilization_secs == 30,
        float_bits::scaled(c.governor.psi_some_threshold) == 5 * pow2(149),
        float_bits::scaled(c.governor.psi_full_threshold) == 2 * pow2(149),
        c.scanner.interval_secs == 30,
        c.scanner.min_anon_rss_mb == 100,
        c.scanner.max_mergeable_per_process_mb == 512,
        c.scanner.max_candidates_per_cycle == 5,
        c.scanner.blocklist@.len() == 4,
        c.scanner.blocklist@[0]@ == "zramdedup"@,
        c.scanner.blocklist@[1]@ == "ksmd"@,
        c.scanner.blocklist@[2]@ == "systemd"@,
        c.scanner.blocklist@[3]@ == "sshd"@,
        !c.swap_proxy.enabled,
        c.swap_proxy.device_size_gb == 8,
        c.swap_proxy.dedup_table_max_entries == 1000000,
        c.swap_proxy.bloom_capacity == 1000000,
{
    float_bits::law_named_numbers_have_their_values();
    let names = text::strings(c.scanner.blocklist@);
    assert(names == seq!["zramdedup"@, "ksmd"@, "systemd"@, "sshd"@]);
    assert(names.len() == c.scanner.blocklist@.len());
    assert(names[0] == c.scanner.blocklist@[0]@);
    assert(names[1] == c.scanner.blocklist@[1]@);
    assert(names[2] == c.scanner.blocklist@[2]@);
    assert(names[3] == c.scanner.blocklist@[3]@);
}

/// The message of each problem begins with the name of the setting.
pub proof fn law_messages_name_the_setting()
    ensures
        text::has_prefix(
            ConfigError::PsiSomeThreshold.spec_message(),
            "governor.psi_some_threshold "@,
        ),
        text::has_prefix(
            ConfigError::PsiFullThreshold.spec_message(),
            "governor.psi_full_threshold "@,
        ),
        text::has_prefix(
            ConfigError::AdvisorScanTimeRange.spec_message(),
            "governor.advisor_scan_time_range: "@,
        ),
        text::has_prefix(
            ConfigError::MaxPageSharingRange.spec_message(),
            "governor.max_page_sharing_range: "@,
        ),
        text::has_prefix(ConfigError::MinAnonRss.spec_message(), "scanner.min_anon_rss_mb "@),
        text::has_prefix(
            ConfigError::DuplicateRatioThreshold.spec_message(),
            "scanner.duplicate_ratio_threshold "@,
        ),
        text::has_prefix(ConfigError::DeviceSize.spec_message(), "swap_proxy.device_size_gb "@),
        text::has_prefix(
            ConfigError::DedupTableMaxEntries.spec_message(),
            "swap_proxy.dedup_table_max_entries "@,
        ),
{
    reveal_strlit("governor.psi_some_threshold must be between 0 and 100");
    reveal_strlit("governor.psi_full_threshold must be between 0 and 100");
    reveal_strlit("governor.advisor_scan_time_range: min must be < max");
    reveal_strlit("governor.max_page_sharing_range: min must be < max");
    reveal_strlit("scanner.min_anon_rss_mb must be > 0");
    reveal_strlit("scanner.duplicate_ratio_threshold must be in (0, 1]");
    reveal_strlit("swap_proxy.device_size_gb must be > 0");
    reveal_strlit("swap_proxy.dedup_table_max_entries must be > 0");
    reveal_strlit("governor.psi_some_threshold ");
    reveal_strlit("governor.psi_full_threshold ");
    reveal_strlit("governor.advisor_scan_time_range: ");
    reveal_strlit("governor.max_page_sharing_range: ");
    reveal_strlit("scanner.min_anon_rss_mb ");
    reveal_strlit("scanner.duplicate_ratio_threshold ");
    reveal_strlit("swap_proxy.device_size_gb ");
    reveal_strlit("swap_proxy.dedup_table_max_entries ");
    assert(ConfigError::PsiSomeThreshold.spec_message().subrange(0, 28)
        =~= "governor.psi_some_threshold "@);
    assert(ConfigError::PsiFullThreshold.spec_message().subrange(0, 28)
        =~= "governor.psi_full_threshold "@);
    assert(ConfigError::AdvisorScanTimeRange.spec_message().subrange(0, 34)
        =~= "governor.advisor_scan_time_range: "@);
    assert(ConfigError::MaxPageSharingRange.spec_message().subrange(0, 33)
        =~= "governor.max_page_sharing_range: "@);
    assert(ConfigError::MinAnonRss.spec_message().subrange(0, 24)
        =~= "scanner.min_anon_rss_mb "@);
    assert(ConfigError::DuplicateRatioThreshold.spec_message().subrange(0, 34)
        =~= "scanner.duplicate_ratio_threshold "@);
    assert(ConfigError::DeviceSize.spec_message().subrange(0, 26)
        =~= "swap_proxy.device_size_gb "@);
    assert(ConfigError::DedupTableMaxEntries.spec_message().subrange(0, 35)
        =~= "swap_proxy.dedup_table_max_entries "@);
}

} // verus!
