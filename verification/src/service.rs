//! What the swap proxy does around its work: how its settings come together, and
//! what is cleaned up after a crash.

use vstd::prelude::*;
use vstd::string::StringExecFns;

use crate::config::SwapProxyConfig;
use crate::outside;
use crate::text;
use crate::text::{chars_of, contains, split_lines, split_words, string_of, text_contains};

verus! {

// ---------------------------------------------------------------------------
// Swap proxy
// ---------------------------------------------------------------------------

/// Resolved swap proxy parameters: configured values merged with overrides.
#[derive(Debug)]
pub struct RunConfig {
    pub page_store_path: String,
    pub size_gb: u64,
    pub max_entries: u64,
    pub bloom_capacity: usize,
    /// When true, run mkswap + swapon on the created ublk device.
    pub bootstrap: bool,
}

/// The override, or the configured value where there is none.
pub open spec fn or_else<T>(o: Option<T>, configured: T) -> T {
    match o {
        Some(v) => v,
        None => configured,
    }
}

impl RunConfig {
    /// Merges what was given on the command line with the configuration.
    pub fn resolve(
        config: &SwapProxyConfig,
        page_store_path: Option<String>,
        size_gb: Option<u64>,
        max_entries: Option<u64>,
        bloom_capacity: Option<usize>,
        no_bootstrap: bool,
    ) -> (r: Self)
        ensures
            r.page_store_path@ == (match page_store_path {
                Some(path) => path@,
                None => config.page_store_path@,
            }),
            r.size_gb == or_else(size_gb, config.device_size_gb),
            r.max_entries == or_else(max_entries, config.dedup_table_max_entries),
            r.bloom_capacity == or_else(bloom_capacity, config.bloom_capacity),
            r.bootstrap == !no_bootstrap,
    {
        RunConfig {
            page_store_path: match page_store_path {
                Some(path) => path,
                None => String::from_str(config.page_store_path.as_str()),
            },
            size_gb: match size_gb {
                Some(n) => n,
                None => config.device_size_gb,
            },
            max_entries: match max_entries {
                Some(n) => n,
                None => config.dedup_table_max_entries,
            },
            bloom_capacity: match bloom_capacity {
                Some(n) => n,
                None => config.bloom_capacity,
            },
            bootstrap: !no_bootstrap,
        }
    }
}

// ---------------------------------------------------------------------------
// Cleanup
// ---------------------------------------------------------------------------

/// The first words of the lines, where they name a ublk device.
pub open spec fn ubd_names(lines: Seq<Seq<char>>) -> Seq<Seq<char>>
    decreases lines.len(),
{
    if lines.len() == 0 {
        Seq::empty()
    } else {
        let before = ubd_names(lines.drop_last());
        let words = text::words(lines.last());
        if words.len() > 0 && text::contains_text(words[0], "ubd"@) {
            before.push(words[0])
        } else {
            before
        }
    }
}

/// Parse the output of `swapon --show` and return the device paths of active ublk
/// swap devices (typically `/dev/ubd0`, `/dev/ubd1`, ...).
pub fn ubd_devices_in_swapon_output(stdout: &str) -> (r: Vec<String>)
    ensures
        text::strings(r@) == ubd_names(text::lines(stdout@)),
{
    let chars = chars_of(stdout);
    let lines = split_lines(chars.as_slice());
    let pattern = chars_of("ubd");
    let mut devices: Vec<String> = Vec::new();
    let ghost all = text::views(lines@);
    let mut i: usize = 0;
    assert(all.take(0) =~= Seq::<Seq<char>>::empty());
    assert(text::strings(devices@) =~= Seq::<Seq<char>>::empty());
    while i < lines.len()
        invariant
            i <= lines.len(),
            all == text::views(lines@),
            pattern@ == "ubd"@,
            text::strings(devices@) == ubd_names(all.take(i as int)),
        decreases lines.len() - i,
    {
        assert(all.take(i + 1).drop_last() =~= all.take(i as int));
        assert(all.take(i + 1).last() == lines@[i as int]@);
        let words = split_words(lines[i]);
        if words.len() > 0 {
            assert(text::views(words@)[0] == words@[0]@);
            if contains(words[0], pattern.as_slice()) {
                let name = string_of(words[0]);
                let ghost before = devices@;
                devices.push(name);
                assert(text::strings(devices@) =~= text::strings(before).push(name@));
            }
        }
        i += 1;
    }
    assert(all.take(i as int) =~= all);
    devices
}

/// The contents of a list of texts.
pub open spec fn message_views(messages: Seq<&'static str>) -> Seq<Seq<char>> {
    messages.map_values(|m: &'static str| m@)
}

/// What is said about zram0 after the ublk devices are gone.
pub fn cleanup_messages_from_swapon_stdout(stdout: &str) -> (r: Vec<&'static str>)
    ensures
        message_views(r@) == zram_lines(stdout@),
{
    if text_contains(stdout, "zram0") {
        let messages = vec!["zram0 is still active as swap. No cleanup needed."];
        assert(message_views(messages@) =~= seq![
            "zram0 is still active as swap. No cleanup needed."@,
        ]);
        messages
    } else {
        let messages = vec!["WARNING: zram0 is not active as swap!", "Run: swapon /dev/zram0"];
        assert(message_views(messages@) =~= seq![
            "WARNING: zram0 is not active as swap!"@,
            "Run: swapon /dev/zram0"@,
        ]);
        messages
    }
}

/// What is said about one device that was to be switched off.
pub fn swapoff_message(device: &str, ok: bool) -> (r: String)
    ensures
        r@ == "swapoff "@ + device@ + (if ok {
            " ok"@
        } else {
            " FAILED"@
        }),
{
    let mut out = String::from_str("swapoff ");
    out.append(device);
    if ok {
        out.append(" ok");
    } else {
        out.append(" FAILED");
    }
    out
}

/// What is said when the swap devices cannot be listed.
pub fn enumeration_failure(e: &str) -> (r: String)
    ensures
        r@ == "Could not enumerate swap devices (swapon --show): "@ + e@,
{
    text::concat("Could not enumerate swap devices (swapon --show): ", e)
}

/// What is said about the listed devices, given how switching each of them off
/// went.
pub open spec fn swapoff_lines(devices: Seq<Seq<char>>, oks: Seq<bool>) -> Seq<Seq<char>> {
    Seq::new(
        devices.len(),
        |i: int|
            "swapoff "@ + devices[i] + (if oks[i] {
                " ok"@
            } else {
                " FAILED"@
            }),
    )
}

/// What is said about zram0.
pub open spec fn zram_lines(stdout: Seq<char>) -> Seq<Seq<char>> {
    if text::contains_text(stdout, "zram0"@) {
        seq!["zram0 is still active as swap. No cleanup needed."@]
    } else {
        seq!["WARNING: zram0 is not active as swap!"@, "Run: swapon /dev/zram0"@]
    }
}

/// Whether switching off the device of that name can have given `ok` and led from
/// one world to the next.
pub open spec fn switched<W, OffFn: Fn(W, &str) -> (bool, W)>(
    swapoff: OffFn,
    name: Seq<char>,
    from: W,
    ok: bool,
    to: W,
) -> bool {
    exists|device: &str|
        device@ == name && #[trigger] call_ensures(swapoff, (from, device), (ok, to))
}

/// Whether the devices of these names were switched off, each once and in order,
/// and went like that.
pub open spec fn all_switched<W, OffFn: Fn(W, &str) -> (bool, W)>(
    swapoff: OffFn,
    names: Seq<Seq<char>>,
    oks: Seq<bool>,
    worlds: Seq<W>,
    from: W,
    to: W,
) -> bool {
    &&& oks.len() == names.len()
    &&& outside::is_path(worlds, names.len(), from, to)
    &&& forall|i: int|
        0 <= i < names.len() ==> switched(
            swapoff,
            names[i],
            worlds[i],
            #[trigger] oks[i],
            worlds[i + 1],
        )
}

/// Whether the devices of these names may be switched off.
pub open spec fn may_switch_off<W, OffFn: Fn(W, &str) -> (bool, W)>(
    names: Seq<Seq<char>>,
    swapoff: OffFn,
) -> bool {
    forall|device: &str, w: W|
        names.contains(device@) ==> #[trigger] call_requires(swapoff, (w, device))
}

/// Switches the listed ublk devices off, in order, and says how it went.
fn switch_off<W, OffFn: Fn(W, &str) -> (bool, W)>(
    devices: &Vec<String>,
    world: W,
    swapoff: &OffFn,
) -> (r: (Vec<String>, W, Ghost<Seq<bool>>))
    requires
        may_switch_off(text::strings(devices@), *swapoff),
    ensures
        text::strings(r.0@) == swapoff_lines(text::strings(devices@), r.2@),
        exists|worlds: Seq<W>| #[trigger]
            all_switched(*swapoff, text::strings(devices@), r.2@, worlds, world, r.1),
{
    let ghost names = text::strings(devices@);
    let mut lines: Vec<String> = Vec::new();
    let ghost mut oks: Seq<bool> = Seq::empty();
    let ghost mut worlds: Seq<W> = seq![world];
    let mut now: W = world;
    let mut i: usize = 0;
    while i < devices.len()
        invariant
            i <= devices.len(),
            names == text::strings(devices@),
            may_switch_off(names, *swapoff),
            oks.len() == i,
            lines@.len() == i,
            forall|k: int|
                0 <= k < i ==> (#[trigger] lines@[k])@ == swapoff_lines(names, oks)[k],
            outside::is_path(worlds, i as nat, world, now),
            forall|k: int|
                0 <= k < i ==> switched(
                    *swapoff,
                    names[k],
                    worlds[k],
                    #[trigger] oks[k],
                    worlds[k + 1],
                ),
        decreases devices.len() - i,
    {
        let device = devices[i].as_str();
        assert(names[i as int] == device@);
        let ghost before = now;
        let (ok, next) = swapoff(now, device);
        assert(switched(*swapoff, names[i as int], before, ok, next));
        proof {
            let done = oks;
            let seen = worlds;
            oks = oks.push(ok);
            worlds = worlds.push(next);
            assert forall|k: int| 0 <= k < oks.len() implies switched(
                *swapoff,
                names[k],
                worlds[k],
                #[trigger] oks[k],
                worlds[k + 1],
            ) by {
                if k < done.len() {
                    assert(oks[k] == done[k]);
                    assert(worlds[k] == seen[k] && worlds[k + 1] == seen[k + 1]);
                }
            }
        }
        lines.push(swapoff_message(device, ok));
        now = next;
        i += 1;
    }
    assert(text::strings(lines@) =~= swapoff_lines(names, oks));
    let r = (lines, now, Ghost(oks));
    assert(all_switched(*swapoff, text::strings(devices@), r.2@, worlds, world, r.1));
    r
}

/// Whether switching off the devices of the list, where there is one, can have
/// said `lines` and led from one world to the other.
pub open spec fn devices_said<W, OffFn: Fn(W, &str) -> (bool, W)>(
    listed: Result<String, String>,
    swapoff: OffFn,
    lines: Seq<Seq<char>>,
    from: W,
    to: W,
) -> bool {
    match listed {
        Ok(stdout) => exists|oks: Seq<bool>, worlds: Seq<W>|
            {
                &&& #[trigger] all_switched(
                    swapoff,
                    ubd_names(text::lines(stdout@)),
                    oks,
                    worlds,
                    from,
                    to,
                )
                &&& lines == swapoff_lines(ubd_names(text::lines(stdout@)), oks)
            },
        Err(e) => {
            &&& lines == seq!["Could not enumerate swap devices (swapon --show): "@ + e@]
            &&& from == to
        },
    }
}

/// Whether cleaning up can have said `lines` and led from one world to the other:
/// first about the devices of the list, then about zram0, by a list that is made
/// once all devices were switched off.
pub open spec fn cleaned_up<W, OffFn: Fn(W, &str) -> (bool, W), ShowFn: Fn(W) -> (String, W)>(
    listed: Result<String, String>,
    swapoff: OffFn,
    show: ShowFn,
    lines: Seq<Seq<char>>,
    from: W,
    to: W,
) -> bool {
    exists|said: Seq<Seq<char>>, shown: String, off: W|
        {
            &&& #[trigger] devices_said(listed, swapoff, said, from, off)
            &&& #[trigger] call_ensures(show, (off,), (shown, to))
            &&& lines == said + zram_lines(shown@)
        }
}

/// Cleans up after a crash or a stop: ublk devices that are still in use as swap
/// are switched off, and no others; then zram0 is looked for. `listed` is the list
/// of swap devices, `swapoff` switches one off, and `show` makes the list again.
/// Gives what there is to say.
pub fn cleanup_after_crash<W, OffFn: Fn(W, &str) -> (bool, W), ShowFn: Fn(W) -> (String, W)>(
    listed: Result<String, String>,
    world: W,
    swapoff: &OffFn,
    show: &ShowFn,
) -> (r: (Vec<String>, W))
    requires
        listed matches Ok(stdout) ==> may_switch_off(ubd_names(text::lines(stdout@)), *swapoff),
        forall|w: W| #[trigger] call_requires(show, (w,)),
    ensures
        cleaned_up(listed, *swapoff, *show, text::strings(r.0@), world, r.1),
{
    let ghost start = world;
    let (mut lines, off): (Vec<String>, W) = match &listed {
        Ok(stdout) => {
            let devices = ubd_devices_in_swapon_output(stdout.as_str());
            let (lines, off, Ghost(oks)) = switch_off(&devices, world, swapoff);
            assert(text::strings(devices@) == ubd_names(text::lines(stdout@)));
            assert(devices_said(listed, *swapoff, text::strings(lines@), start, off));
            (lines, off)
        },
        Err(e) => {
            let lines = vec![enumeration_failure(e.as_str())];
            assert(text::strings(lines@) =~= seq![
                "Could not enumerate swap devices (swapon --show): "@ + e@,
            ]);
            (lines, world)
        },
    };
    let ghost between = off;
    let ghost said = text::strings(lines@);
    let (shown, end) = show(off);
    let messages = cleanup_messages_from_swapon_stdout(shown.as_str());
    let mut i: usize = 0;
    assert(text::strings(lines@) =~= said + message_views(messages@).take(0));
    while i < messages.len()
        invariant
            i <= messages.len(),
            text::strings(lines@) == said + message_views(messages@).take(i as int),
        decreases messages.len() - i,
    {
        let ghost before = lines@;
        lines.push(String::from_str(messages[i]));
        assert(text::strings(lines@) =~= text::strings(before).push(messages@[i as int]@));
        assert(message_views(messages@).take(i + 1) =~= message_views(messages@).take(
            i as int,
        ).push(messages@[i as int]@));
        i += 1;
        assert(text::strings(lines@) =~= said + message_views(messages@).take(i as int));
    }
    assert(message_views(messages@).take(i as int) =~= zram_lines(shown@));
    assert(devices_said(listed, *swapoff, said, start, between));
    assert(call_ensures(show, (between,), (shown, end)));
    (lines, end)
}

// ---------------------------------------------------------------------------
// Laws
// ---------------------------------------------------------------------------

/// What was given on the command line counts, and else what is configured.
pub proof fn law_given_values_count<T>(given: T, configured: T)
    ensures
        or_else(Some(given), configured) == given,
        or_else(None, configured) == configured,
{
}

/// The devices are the first words of the lines, in order, as far as they hold "ubd".
pub proof fn law_devices_are_listed(a: Seq<Seq<char>>, b: Seq<Seq<char>>, line: Seq<char>)
    ensures
        ubd_names(a + b) == ubd_names(a) + ubd_names(b),
        text::words(line).len() > 0 && text::contains_text(text::words(line)[0], "ubd"@)
            ==> ubd_names(seq![line]) == seq![text::words(line)[0]],
        text::words(line).len() == 0 || !text::contains_text(text::words(line)[0], "ubd"@)
            ==> ubd_names(seq![line]) == Seq::<Seq<char>>::empty(),
    decreases b.len(),
{
    let one = seq![line];
    assert(one.drop_last() =~= Seq::<Seq<char>>::empty());
    assert(ubd_names(one.drop_last()) =~= Seq::<Seq<char>>::empty());
    assert(one.last() == line);
    if text::words(line).len() > 0 && text::contains_text(text::words(line)[0], "ubd"@) {
        assert(ubd_names(one) =~= seq![text::words(line)[0]]);
    } else {
        assert(ubd_names(one) =~= Seq::<Seq<char>>::empty());
    }
    if b.len() == 0 {
        assert(a + b =~= a);
        assert(ubd_names(a) + ubd_names(b) =~= ubd_names(a));
    } else {
        law_devices_are_listed(a, b.drop_last(), line);
        assert((a + b).drop_last() =~= a + b.drop_last());
        assert((a + b).last() == b.last());
        assert(ubd_names(a + b) =~= ubd_names(a) + ubd_names(b));
    }
}

/// A device of this kind, with whatever stands behind it in its line, is listed.
pub proof fn law_ubd_devices_are_found(before: Seq<char>, after: Seq<char>, rest: Seq<char>)
    requires
        forall|i: int| 0 <= i < before.len() ==> !text::is_white(#[trigger] before[i]),
        forall|i: int| 0 <= i < after.len() ==> !text::is_white(#[trigger] after[i]),
    ensures
        ubd_names(seq![(before + "ubd"@ + after) + seq![' '] + rest]) == seq![
            before + "ubd"@ + after,
        ],
{
    reveal_strlit("ubd");
    let name = before + "ubd"@ + after;
    let line = name + seq![' '] + rest;
    assert forall|i: int| 0 <= i < name.len() implies !text::is_white(#[trigger] name[i]) by {
        if i < before.len() {
            assert(!text::is_white(before[i]));
        } else if i >= before.len() + 3 {
            assert(!text::is_white(after[i - before.len() - 3]));
        }
    }
    text::law_white_space_separates_words(name, ' ', rest);
    assert(text::words(line)[0] == name);
    text::lemma_contains(before, "ubd"@, after);
    law_devices_are_listed(Seq::empty(), Seq::empty(), line);
}

/// What is said of each device names it and says how it went.
pub proof fn law_switched_devices_are_reported(
    devices: Seq<Seq<char>>,
    oks: Seq<bool>,
    i: int,
)
    requires
        0 <= i < devices.len(),
    ensures
        swapoff_lines(devices, oks).len() == devices.len(),
        text::contains_text(swapoff_lines(devices, oks)[i], devices[i]),
        oks[i] ==> text::has_suffix(swapoff_lines(devices, oks)[i], " ok"@),
        !oks[i] ==> text::has_suffix(swapoff_lines(devices, oks)[i], " FAILED"@),
{
    let line = swapoff_lines(devices, oks)[i];
    let head = "swapoff "@;
    let end = if oks[i] {
        " ok"@
    } else {
        " FAILED"@
    };
    text::lemma_contains(head, devices[i], end);
    assert(line == head + devices[i] + end);
    let at = line.len() - end.len();
    assert(line.subrange(at, at + end.len()) =~= end);
}

/// There is a warning exactly if the listing does not hold zram0.
pub proof fn law_missing_zram_is_warned_of(before: Seq<char>, after: Seq<char>, stdout: Seq<char>)
    ensures
        zram_lines(before + "zram0"@ + after).len() == 1,
        !text::contains_text(stdout, "zram0"@) ==> zram_lines(stdout).len() == 2
            && text::has_prefix(zram_lines(stdout)[0], "WARNING"@),
        text::contains_text(stdout, "zram0"@) ==> !text::has_prefix(
            zram_lines(stdout)[0],
            "WARNING"@,
        ),
{
    reveal_strlit("WARNING");
    reveal_strlit("WARNING: zram0 is not active as swap!");
    reveal_strlit("zram0 is still active as swap. No cleanup needed.");
    text::lemma_contains(before, "zram0"@, after);
    assert("WARNING: zram0 is not active as swap!"@.subrange(0, 7) =~= "WARNING"@);
    let fine = "zram0 is still active as swap. No cleanup needed."@;
    assert(fine.subrange(0, 7)[0] == 'z');
    assert("WARNING"@[0] == 'W');
}

/// Each device is switched off under its own name: where the outcome depends on the name
/// alone, what is said of a device is how that device went.
pub proof fn law_each_device_is_switched_off<W, OffFn: Fn(W, &str) -> (bool, W)>(
    swapoff: OffFn,
    works: spec_fn(Seq<char>) -> bool,
    names: Seq<Seq<char>>,
    oks: Seq<bool>,
    worlds: Seq<W>,
    from: W,
    to: W,
    i: int,
)
    requires
        forall|w: W, device: &str, ok: bool, v: W| #[trigger]
            call_ensures(swapoff, (w, device), (ok, v)) ==> ok == works(device@),
        all_switched(swapoff, names, oks, worlds, from, to),
        0 <= i < names.len(),
    ensures
        oks.len() == names.len(),
        oks[i] == works(names[i]),
{
    assert(switched(swapoff, names[i], worlds[i], oks[i], worlds[i + 1]));
    let device = choose|device: &str|
        device@ == names[i] && #[trigger] call_ensures(
            swapoff,
            (worlds[i], device),
            (oks[i], worlds[i + 1]),
        );
    assert(device@ == names[i]);
}

} // verus!
