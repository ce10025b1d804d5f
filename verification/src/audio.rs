//! Audio inputs and outputs: what exists, what to call it, and whether it
//! can be opened the way a measurement needs.
//!
//! Talking to the driver is I/O and happens outside this crate: the caller
//! asks the driver and hands over what it said, as plain values. Everything
//! decided from that — which host an id means, which devices are listed and
//! how, which rates are offered, whether a configuration is supported, how a
//! block of samples fits into the ring — is decided here.
//!
//! A lookup that needs the driver is split in two. The first step decides
//! from the id alone and either answers or names the host to enumerate; the
//! caller enumerates it and hands the listing to the second step.

use vstd::prelude::*;
use crate::project::{decimal, lemma_decimal_len_le, push_decimal};
use crate::synthetic;
use crate::text::{ascii_lower_all, eq_ignore_ascii_case, str_eq_ignore_ascii_case, string_of, to_ascii_lowercase};

verus! {

/// Rates offered, if the device supports them. Below 44.1 kHz the top of the
/// measurement range is lost; above 192 kHz costs CPU for spectrum nobody is
/// measuring.
pub const OFFERED_RATES: [u32; 6] = [44100, 48000, 88200, 96000, 176400, 192000];

/// The default rate assumed for a device that reports no default
/// configuration.
pub const FALLBACK_SAMPLE_RATE: u32 = 48000;

/// How many seconds of audio the ring between the driver and the analysis
/// holds. A hitch costs nothing rather than a gap.
pub const RING_SECONDS: usize = 2;

pub open spec fn is_offered_rate(r: u32) -> bool {
    r == 44100 || r == 48000 || r == 88200 || r == 96000 || r == 176400 || r == 192000
}

/// Why an audio operation failed.
#[derive(Debug, Clone, PartialEq, Eq)]
pub enum AudioError {
    /// No audio host has this id.
    UnknownHost(String),
    /// No input device has this name.
    UnknownDevice(String),
    /// No output device has this name.
    UnknownOutputDevice(String),
    /// The host has no devices of the kind asked for.
    NoDevices,
    /// The device does not offer this rate at its channel count.
    UnsupportedConfig { device: String, rate: u32, channels: u16 },
    /// The driver reported an error.
    Backend(String),
}

impl AudioError {
    /// The sentence a user is shown.
    pub open spec fn message_text(&self) -> Seq<char> {
        match self {
            AudioError::UnknownHost(id) => "no audio host named "@ + id@,
            AudioError::UnknownDevice(name) => "no input device named "@ + name@,
            AudioError::UnknownOutputDevice(name) => "no output device named "@ + name@,
            AudioError::NoDevices => "the host has no input devices"@,
            AudioError::UnsupportedConfig { device, rate, channels } => device@ + " cannot run at "@
                + decimal(*rate as nat, 1) + " Hz with "@ + decimal(*channels as nat, 1)
                + " channels"@,
            AudioError::Backend(e) => "audio backend: "@ + e@,
        }
    }

    /// The sentence a user is shown.
    pub fn message(&self) -> (r: String)
        ensures
            r@ == self.message_text(),
    {
        match self {
            AudioError::UnknownHost(id) => {
                let mut s = String::from_str("no audio host named ");
                s.append(id.as_str());
                s
            },
            AudioError::UnknownDevice(name) => {
                let mut s = String::from_str("no input device named ");
                s.append(name.as_str());
                s
            },
            AudioError::UnknownOutputDevice(name) => {
                let mut s = String::from_str("no output device named ");
                s.append(name.as_str());
                s
            },
            AudioError::NoDevices => String::from_str("the host has no input devices"),
            AudioError::UnsupportedConfig { device, rate, channels } => {
                let mut digits: Vec<char> = Vec::new();
                push_decimal(&mut digits, *rate, 1);
                let mut ch: Vec<char> = Vec::new();
                push_decimal(&mut ch, *channels as u32, 1);
                proof {
                    lemma_decimal_len_le(*rate as nat, 1, 10);
                    lemma_decimal_len_le(*channels as nat, 1, 10);
                }
                let mut s = String::from_str(device.as_str());
                s.append(" cannot run at ");
                s.append(string_of(&digits).as_str());
                s.append(" Hz with ");
                s.append(string_of(&ch).as_str());
                s.append(" channels");
                s
            },
            AudioError::Backend(e) => {
                let mut s = String::from_str("audio backend: ");
                s.append(e.as_str());
                s
            },
        }
    }
}

/// An audio API: Core Audio, WASAPI, ALSA, JACK, ASIO.
#[derive(Debug, Clone)]
pub struct HostInfo {
    /// Stable identifier used to reopen this host later.
    pub id: String,
    /// What to show a user.
    pub name: String,
    /// True if this build can actually use it.
    pub available: bool,
    pub is_default: bool,
    /// Why it is unavailable, when it is.
    pub note: Option<String>,
}

/// An input or output device, as offered to the user.
#[derive(Debug, Clone)]
pub struct DeviceInfo {
    pub host: String,
    pub name: String,
    /// Highest channel count the device offers.
    pub max_channels: u16,
    /// The offered rates the device supports, and its default, ascending.
    pub sample_rates: Vec<u32>,
    pub default_sample_rate: u32,
    pub is_default: bool,
}

/// What to open for capture. Anything left `None` is the default.
#[derive(Debug, Clone, Default)]
pub struct CaptureOptions {
    pub host: Option<String>,
    pub device: Option<String>,
    pub sample_rate: Option<u32>,
    /// Driver buffer size in frames; `None` leaves it to the driver.
    pub buffer_frames: Option<u32>,
}

/// What a running stream actually settled on.
#[derive(Debug, Clone)]
pub struct StreamInfo {
    pub host: String,
    pub device: String,
    pub channels: u16,
    pub sample_rate: u32,
    /// The sample format the driver gave, before conversion.
    pub sample_format: String,
}

/// Which output to open. It always opens on the same host and at the same
/// rate as the input: two unsynchronised converters drift apart, and a
/// transfer function measured across that drift shows a rotating phase that
/// looks exactly like a fault in the system.
#[derive(Debug, Clone, Default)]
pub struct OutputOptions {
    /// Host id, which must match the input's.
    pub host: Option<String>,
    /// Device name; `None` opens the default output.
    pub device: Option<String>,
    /// Must match the input's rate.
    pub sample_rate: Option<u32>,
    pub buffer_frames: Option<u32>,
}

/// The name a user sees for a host id.
pub open spec fn friendly_host_name_text(id: Seq<char>) -> Seq<char> {
    let l = ascii_lower_all(id);
    if l == "coreaudio"@ {
        "Core Audio"@
    } else if l == "wasapi"@ {
        "WASAPI"@
    } else if l == "asio"@ {
        "ASIO"@
    } else if l == "alsa"@ {
        "ALSA"@
    } else if l == "jack"@ {
        "JACK"@
    } else {
        l
    }
}

/// The name a user sees for a host id: the usual spelling of the APIs this
/// build knows, the id folded to lower case otherwise.
pub fn friendly_host_name(id: &str) -> (r: String)
    ensures
        r@ == friendly_host_name_text(id@),
{
    let l = to_ascii_lowercase(id);
    if l == String::from_str("coreaudio") {
        String::from_str("Core Audio")
    } else if l == String::from_str("wasapi") {
        String::from_str("WASAPI")
    } else if l == String::from_str("asio") {
        String::from_str("ASIO")
    } else if l == String::from_str("alsa") {
        String::from_str("ALSA")
    } else if l == String::from_str("jack") {
        String::from_str("JACK")
    } else {
        l
    }
}

/// `h` lists an available host `id`, which is the default when
/// `is_default`.
pub open spec fn lists_available_host(h: HostInfo, id: Seq<char>, is_default: bool) -> bool {
    &&& h.id@ == id
    &&& h.name@ == friendly_host_name_text(id)
    &&& h.available
    &&& h.is_default == is_default
    &&& h.note is None
}

/// Why a Windows build lists ASIO as unavailable.
pub const MISSING_ASIO_NOTE: &'static str = "This build was compiled without ASIO. It needs the Steinberg ASIO SDK, which cannot be redistributed — see docs/asio.md.";

/// `h` is the entry that explains an ASIO build that lacks ASIO.
pub open spec fn lists_missing_asio(h: HostInfo) -> bool {
    &&& h.id@ == "Asio"@
    &&& h.name@ == "ASIO"@
    &&& !h.available
    &&& !h.is_default
    &&& h.note matches Some(n) && n@ == MISSING_ASIO_NOTE@
}

/// ASIO is listed as missing on Windows when no available host is ASIO.
pub open spec fn lacks_asio(available: Seq<String>, on_windows: bool) -> bool {
    on_windows && forall|i: int|
        0 <= i < available.len() ==> !eq_ignore_ascii_case(#[trigger] available[i]@, "asio"@)
}

/// Every audio API this build knows about, for the host picker.
///
/// `available` are the ids of the hosts the driver layer offers, in its
/// order, and `default_id` the id of its default host. They come first. A
/// Windows build without ASIO still lists it, unavailable and with the
/// reason, so the user is told rather than left to wonder. The signal
/// generator comes last and is never the default.
pub fn hosts(available: &Vec<String>, default_id: &String, on_windows: bool) -> (r: Vec<HostInfo>)
    ensures
        r@.len() == available@.len() + (if lacks_asio(available@, on_windows) { 2int } else { 1 }),
        forall|i: int|
            0 <= i < available@.len() ==> lists_available_host(
                #[trigger] r@[i],
                available@[i]@,
                available@[i]@ == default_id@,
            ),
        lacks_asio(available@, on_windows) ==> lists_missing_asio(r@[available@.len() as int]),
        synthetic::is_generator_host(r@[r@.len() - 1]),
{
    let mut out: Vec<HostInfo> = Vec::new();
    let mut has_asio = false;
    let mut i: usize = 0;
    while i < available.len()
        invariant
            i <= available@.len(),
            out@.len() == i,
            has_asio == exists|k: int|
                0 <= k < i && eq_ignore_ascii_case(#[trigger] available@[k]@, "asio"@),
            forall|k: int|
                0 <= k < i ==> lists_available_host(
                    #[trigger] out@[k],
                    available@[k]@,
                    available@[k]@ == default_id@,
                ),
        decreases available@.len() - i,
    {
        let id = &available[i];
        let info = HostInfo {
            id: id.clone(),
            name: friendly_host_name(id.as_str()),
            available: true,
            is_default: *id == *default_id,
            note: None,
        };
        out.push(info);
        if str_eq_ignore_ascii_case(id.as_str(), "asio") {
            has_asio = true;
        }
        i = i + 1;
    }
    if on_windows && !has_asio {
        out.push(
            HostInfo {
                id: String::from_str("Asio"),
                name: String::from_str("ASIO"),
                available: false,
                is_default: false,
                note: Some(String::from_str(MISSING_ASIO_NOTE)),
            },
        );
    }
    out.push(synthetic::host());
    out
}

/// Which real host a request means.
#[derive(Debug, Clone, Copy, PartialEq, Eq, Structural)]
pub enum HostChoice {
    /// The driver layer's default host.
    Default,
    /// The available host at this position.
    Available(usize),
}

/// The position of the first available host whose id matches `id` with
/// ASCII case ignored.
pub open spec fn first_host_match(available: Seq<String>, id: Seq<char>, i: int) -> bool {
    &&& 0 <= i < available.len()
    &&& eq_ignore_ascii_case(available[i]@, id)
    &&& forall|k: int| 0 <= k < i ==> !eq_ignore_ascii_case(#[trigger] available[k]@, id)
}

/// The host an id names, matched with ASCII case ignored, or the default
/// host when none is named.
pub fn find_host(id: Option<&str>, available: &Vec<String>) -> (r: Result<HostChoice, AudioError>)
    ensures
        id is None ==> r == Ok::<HostChoice, AudioError>(HostChoice::Default),
        id matches Some(x) ==> match r {
            Ok(HostChoice::Available(i)) => first_host_match(available@, x@, i as int),
            Ok(HostChoice::Default) => false,
            Err(AudioError::UnknownHost(e)) => e@ == x@ && forall|k: int|
                0 <= k < available@.len() ==> !eq_ignore_ascii_case(#[trigger] available@[k]@, x@),
            Err(_) => false,
        },
{
    match id {
        None => Ok(HostChoice::Default),
        Some(x) => {
            let mut i: usize = 0;
            while i < available.len()
                invariant
                    id == Some(x),
                    i <= available@.len(),
                    forall|k: int| 0 <= k < i ==> !eq_ignore_ascii_case(#[trigger] available@[k]@, x@),
                decreases available@.len() - i,
            {
                if str_eq_ignore_ascii_case(available[i].as_str(), x) {
                    return Ok(HostChoice::Available(i));
                }
                i = i + 1;
            }
            Err(AudioError::UnknownHost(String::from_str(x)))
        },
    }
}

/// One supported configuration range of a device, as its driver reports it.
#[derive(Debug, Clone, Copy)]
pub struct ConfigRange {
    pub channels: u16,
    pub min_sample_rate: u32,
    pub max_sample_rate: u32,
}

/// What a driver said about one device.
#[derive(Debug, Clone)]
pub struct DeviceReport {
    /// Its name, or `None` if it would not describe itself.
    pub name: Option<String>,
    /// Its supported configurations, or `None` if it would not list them.
    pub configs: Option<Vec<ConfigRange>>,
    /// The rate of its default configuration, or `None` if it has none.
    pub default_sample_rate: Option<u32>,
}

/// What a driver said about the devices of one kind on one host.
#[derive(Debug)]
pub struct HostListing {
    /// The host's id.
    pub host: String,
    /// The name of the host's default device of this kind, if it has one
    /// that describes itself.
    pub default_device: Option<String>,
    /// The devices, or the driver's error.
    pub devices: Result<Vec<DeviceReport>, String>,
}

/// The answer to a device lookup, or the host to enumerate to get it.
#[derive(Debug)]
pub enum DeviceLookup {
    /// Answered without the driver.
    Listed(Result<Vec<DeviceInfo>, AudioError>),
    /// Enumerate this host and hand the listing to [`describe_devices`].
    Enumerate(HostChoice),
}

/// Input devices on a host, or on the default host if none is named: the
/// generator's signals when the host is the generator, otherwise the host to
/// enumerate, or [`AudioError::UnknownHost`].
pub fn devices(host_id: Option<&str>, available: &Vec<String>) -> (r: DeviceLookup)
    ensures
        synthetic::is_generator_id(opt_view(host_id)) ==> (r matches DeviceLookup::Listed(Ok(v))
            && synthetic::are_signal_devices(v@)),
        !synthetic::is_generator_id(opt_view(host_id)) ==> match r {
            DeviceLookup::Listed(Err(AudioError::UnknownHost(e))) => host_id matches Some(x)
                && e@ == x@ && forall|k: int|
                0 <= k < available@.len() ==> !eq_ignore_ascii_case(#[trigger] available@[k]@, x@),
            DeviceLookup::Enumerate(c) => find_host_spec(opt_view(host_id), available@, c),
            _ => false,
        },
{
    if synthetic::is_host(host_id) {
        return DeviceLookup::Listed(Ok(synthetic::devices()));
    }
    match find_host(host_id, available) {
        Ok(c) => DeviceLookup::Enumerate(c),
        Err(e) => DeviceLookup::Listed(Err(e)),
    }
}

/// Output devices on a host, for the generator's routing picker: the host
/// to enumerate, or [`AudioError::UnknownHost`]. The generator has no
/// outputs, so it is not a host here.
pub fn output_devices(host_id: Option<&str>, available: &Vec<String>) -> (r: DeviceLookup)
    ensures
        match r {
            DeviceLookup::Listed(Err(AudioError::UnknownHost(e))) => host_id matches Some(x)
                && e@ == x@ && forall|k: int|
                0 <= k < available@.len() ==> !eq_ignore_ascii_case(#[trigger] available@[k]@, x@),
            DeviceLookup::Enumerate(c) => find_host_spec(opt_view(host_id), available@, c),
            _ => false,
        },
{
    match find_host(host_id, available) {
        Ok(c) => DeviceLookup::Enumerate(c),
        Err(e) => DeviceLookup::Listed(Err(e)),
    }
}

/// `c` is the host [`find_host`] picks for `id`.
pub open spec fn find_host_spec(id: Option<Seq<char>>, available: Seq<String>, c: HostChoice) -> bool {
    match id {
        None => c == HostChoice::Default,
        Some(x) => match c {
            HostChoice::Available(i) => first_host_match(available, x, i as int),
            HostChoice::Default => false,
        },
    }
}

/// Some configuration covers rate `r`.
pub open spec fn supports_rate(configs: Seq<ConfigRange>, r: u32) -> bool {
    exists|i: int|
        0 <= i < configs.len() && #[trigger] configs[i].min_sample_rate <= r && r
            <= configs[i].max_sample_rate
}

/// The highest channel count of any configuration.
pub open spec fn max_channels_of(configs: Seq<ConfigRange>) -> u16
    decreases configs.len(),
{
    if configs.len() == 0 {
        0
    } else {
        let rest = max_channels_of(configs.drop_last());
        if configs.last().channels > rest {
            configs.last().channels
        } else {
            rest
        }
    }
}

/// Ascending, with nothing twice.
pub open spec fn strictly_increasing(s: Seq<u32>) -> bool {
    forall|i: int, j: int| 0 <= i < j < s.len() ==> s[i] < s[j]
}

/// The rates a device is offered at: the offered rates it supports, and its
/// default.
pub open spec fn listed_rate(configs: Seq<ConfigRange>, default_rate: u32, r: u32) -> bool {
    (is_offered_rate(r) && supports_rate(configs, r)) || r == default_rate
}

fn supports(configs: &Vec<ConfigRange>, r: u32) -> (b: bool)
    ensures
        b == supports_rate(configs@, r),
{
    let mut i: usize = 0;
    while i < configs.len()
        invariant
            i <= configs@.len(),
            forall|k: int|
                0 <= k < i ==> !(#[trigger] configs@[k].min_sample_rate <= r && r
                    <= configs@[k].max_sample_rate),
        decreases configs@.len() - i,
    {
        if configs[i].min_sample_rate <= r && r <= configs[i].max_sample_rate {
            return true;
        }
        i = i + 1;
    }
    false
}

fn max_channels(configs: &Vec<ConfigRange>) -> (m: u16)
    ensures
        m == max_channels_of(configs@),
{
    let mut m: u16 = 0;
    let mut i: usize = 0;
    while i < configs.len()
        invariant
            i <= configs@.len(),
            m == max_channels_of(configs@.subrange(0, i as int)),
        decreases configs@.len() - i,
    {
        assert(configs@.subrange(0, i + 1).drop_last() =~= configs@.subrange(0, i as int));
        if configs[i].channels > m {
            m = configs[i].channels;
        }
        i = i + 1;
    }
    assert(configs@.subrange(0, configs@.len() as int) =~= configs@);
    m
}

/// Insert `x` into an ascending list, keeping it ascending with nothing
/// twice.
fn insert_sorted(v: Vec<u32>, x: u32) -> (r: Vec<u32>)
    requires
        strictly_increasing(v@),
    ensures
        strictly_increasing(r@),
        forall|y: u32| r@.contains(y) <==> (v@.contains(y) || y == x),
{
    let mut out: Vec<u32> = Vec::new();
    let mut i: usize = 0;
    while i < v.len() && v[i] < x
        invariant
            i <= v@.len(),
            strictly_increasing(v@),
            out@ == v@.subrange(0, i as int),
            forall|k: int| 0 <= k < i ==> #[trigger] v@[k] < x,
        decreases v@.len() - i,
    {
        out.push(v[i]);
        i = i + 1;
    }
    let ghost lo = i as int;
    if i < v.len() && v[i] == x {
        // Already there.
    } else {
        out.push(x);
    }
    let ghost mid = out@;
    while i < v.len()
        invariant
            0 <= lo <= i <= v@.len(),
            strictly_increasing(v@),
            forall|k: int| 0 <= k < lo ==> #[trigger] v@[k] < x,
            lo < v@.len() ==> x <= v@[lo],
            out@ == mid + v@.subrange(lo, i as int),
            mid == if lo < v@.len() && v@[lo] == x {
                v@.subrange(0, lo)
            } else {
                v@.subrange(0, lo).push(x)
            },
        decreases v@.len() - i,
    {
        assert(v@.subrange(lo, i + 1) =~= v@.subrange(lo, i as int).push(v@[i as int]));
        out.push(v[i]);
        i = i + 1;
    }
    proof {
        if lo < v@.len() && v@[lo] == x {
            assert(out@ =~= v@);
        } else {
            assert(out@ =~= v@.subrange(0, lo).push(x) + v@.subrange(lo, v@.len() as int));
            assert forall|a: int, b: int| 0 <= a < b < out@.len() implies out@[a] < out@[b] by {
                if b < lo {
                } else if a < lo && b == lo {
                } else if a == lo {
                    assert(out@[b] == v@[b - 1]);
                } else if a < lo {
                    assert(out@[b] == v@[b - 1]);
                } else {
                    assert(out@[a] == v@[a - 1]);
                    assert(out@[b] == v@[b - 1]);
                }
            }
            assert forall|y: u32| out@.contains(y) <==> (v@.contains(y) || y == x) by {
                if out@.contains(y) {
                    let k = choose|k: int| 0 <= k < out@.len() && out@[k] == y;
                    if k < lo {
                        assert(v@[k] == y);
                    } else if k > lo {
                        assert(v@[k - 1] == y);
                    }
                }
                if v@.contains(y) {
                    let k = choose|k: int| 0 <= k < v@.len() && v@[k] == y;
                    if k < lo {
                        assert(out@[k] == y);
                    } else {
                        assert(out@[k + 1] == y);
                    }
                }
                if y == x {
                    assert(out@[lo] == y);
                }
            }
        }
    }
    out
}

/// The rates a device is offered at, ascending: the offered rates it
/// supports, and its default.
fn listed_rates(configs: &Vec<ConfigRange>, default_rate: u32) -> (r: Vec<u32>)
    ensures
        strictly_increasing(r@),
        forall|y: u32| r@.contains(y) <==> listed_rate(configs@, default_rate, y),
{
    let mut rates: Vec<u32> = Vec::new();
    let mut i: usize = 0;
    assert(OFFERED_RATES@ == seq![44100u32, 48000, 88200, 96000, 176400, 192000]);
    while i < 6
        invariant
            i <= 6,
            OFFERED_RATES@ == seq![44100u32, 48000, 88200, 96000, 176400, 192000],
            strictly_increasing(rates@),
            forall|k: int| 0 <= k < rates@.len() ==> #[trigger] rates@[k] < (if i < 6 {
                OFFERED_RATES@[i as int]
            } else {
                u32::MAX
            }),
            forall|y: u32|
                rates@.contains(y) <==> (supports_rate(configs@, y) && exists|k: int|
                    0 <= k < i && #[trigger] OFFERED_RATES@[k] == y),
        decreases 6 - i,
    {
        let r = OFFERED_RATES[i];
        let ghost old_rates = rates@;
        let s = supports(configs, r);
        if s {
            rates.push(r);
        }
        proof {
            assert(rates@ == if s { old_rates.push(r) } else { old_rates });
            assert forall|y: u32|
                rates@.contains(y) <==> (supports_rate(configs@, y) && exists|k: int|
                    0 <= k < i + 1 && #[trigger] OFFERED_RATES@[k] == y) by {
                if rates@.contains(y) {
                    let k = choose|k: int| 0 <= k < rates@.len() && rates@[k] == y;
                    if k < old_rates.len() {
                        assert(old_rates[k] == y);
                        assert(old_rates.contains(y));
                    } else {
                        assert(y == r);
                        assert(OFFERED_RATES@[i as int] == y);
                    }
                }
                if supports_rate(configs@, y) && exists|k: int|
                    0 <= k < i + 1 && #[trigger] OFFERED_RATES@[k] == y {
                    let k = choose|k: int| 0 <= k < i + 1 && #[trigger] OFFERED_RATES@[k] == y;
                    if k < i {
                        assert(old_rates.contains(y));
                        let m = choose|m: int| 0 <= m < old_rates.len() && old_rates[m] == y;
                        assert(rates@[m] == y);
                    } else {
                        assert(rates@[rates@.len() - 1] == y);
                    }
                }
            }
        }
        i = i + 1;
    }
    proof {
        assert forall|y: u32| rates@.contains(y) <==> (is_offered_rate(y) && supports_rate(configs@, y)) by {
            if is_offered_rate(y) {
                if y == 44100 { assert(OFFERED_RATES@[0] == y); }
                if y == 48000 { assert(OFFERED_RATES@[1] == y); }
                if y == 88200 { assert(OFFERED_RATES@[2] == y); }
                if y == 96000 { assert(OFFERED_RATES@[3] == y); }
                if y == 176400 { assert(OFFERED_RATES@[4] == y); }
                if y == 192000 { assert(OFFERED_RATES@[5] == y); }
            }
        }
    }
    insert_sorted(rates, default_rate)
}

/// A report worth listing: the device names itself, lists at least one
/// configuration, and offers at least one channel.
pub open spec fn usable(d: DeviceReport) -> bool {
    &&& d.name is Some
    &&& d.name->0@.len() > 0
    &&& d.configs is Some
    &&& d.configs->0@.len() > 0
    &&& max_channels_of(d.configs->0@) > 0
}

/// The default rate a device report stands for.
pub open spec fn default_rate_of(d: DeviceReport) -> u32 {
    match d.default_sample_rate {
        Some(r) => r,
        None => FALLBACK_SAMPLE_RATE,
    }
}

/// `info` describes the usable device report `d` on host `host`, where the
/// host's default device is called `default_device`.
pub open spec fn describes(
    info: DeviceInfo,
    host: Seq<char>,
    default_device: Option<String>,
    d: DeviceReport,
) -> bool {
    let configs = d.configs->0@;
    &&& info.host@ == host
    &&& info.name@ == d.name->0@
    &&& info.name@.len() > 0
    &&& info.max_channels == max_channels_of(configs)
    &&& info.max_channels > 0
    &&& strictly_increasing(info.sample_rates@)
    &&& forall|y: u32| #[trigger] info.sample_rates@.contains(y) <==> listed_rate(configs, default_rate_of(d), y)
    &&& info.default_sample_rate == default_rate_of(d)
    &&& info.is_default == (default_device matches Some(n) && n@ == d.name->0@)
}

/// The usable device reports, in order.
pub open spec fn usable_reports(ds: Seq<DeviceReport>) -> Seq<DeviceReport> {
    ds.filter(|d: DeviceReport| usable(d))
}

/// The devices a host listing offers: every device that gives a name and
/// lists at least one configuration with at least one channel, in the
/// driver's order, with the rates worth offering. A device that will not
/// describe itself is skipped rather than listed and then failing on
/// selection. The driver's error is
/// [`AudioError::Backend`]; a host with nothing to offer is
/// [`AudioError::NoDevices`].
pub fn describe_devices(listing: &HostListing) -> (r: Result<Vec<DeviceInfo>, AudioError>)
    ensures
        match &listing.devices {
            Err(e) => (r matches Err(AudioError::Backend(m)) && m@ == e@),
            Ok(ds) => {
                let us = usable_reports(ds@);
                match r {
                    Ok(v) => us.len() > 0 && v@.len() == us.len() && forall|k: int|
                        0 <= k < v@.len() ==> describes(
                            #[trigger] v@[k],
                            listing.host@,
                            listing.default_device,
                            us[k],
                        ),
                    Err(e) => us.len() == 0 && e is NoDevices,
                }
            },
        },
{
    let ds = match &listing.devices {
        Err(e) => {
            return Err(AudioError::Backend(e.clone()));
        },
        Ok(ds) => ds,
    };
    let mut out: Vec<DeviceInfo> = Vec::new();
    let mut i: usize = 0;
    while i < ds.len()
        invariant
            i <= ds@.len(),
            out@.len() == usable_reports(ds@.subrange(0, i as int)).len(),
            forall|k: int|
                0 <= k < out@.len() ==> describes(
                    #[trigger] out@[k],
                    listing.host@,
                    listing.default_device,
                    usable_reports(ds@.subrange(0, i as int))[k],
                ),
        decreases ds@.len() - i,
    {
        let d = &ds[i];
        let ghost before = usable_reports(ds@.subrange(0, i as int));
        proof {
            assert(ds@.subrange(0, i + 1) =~= ds@.subrange(0, i as int).push(ds@[i as int]));
            ds@.subrange(0, i as int).lemma_filter_push(ds@[i as int], |d: DeviceReport| usable(d));
        }
        match (&d.name, &d.configs) {
            (Some(name), Some(configs)) => {
                let channels = max_channels(configs);
                if configs.len() > 0 && !name.as_str().is_empty() && channels > 0 {
                    let default_sample_rate = match d.default_sample_rate {
                        Some(r) => r,
                        None => FALLBACK_SAMPLE_RATE,
                    };
                    let is_default = match &listing.default_device {
                        Some(n) => *n == *name,
                        None => false,
                    };
                    let info = DeviceInfo {
                        host: listing.host.clone(),
                        name: name.clone(),
                        max_channels: channels,
                        sample_rates: listed_rates(configs, default_sample_rate),
                        default_sample_rate,
                        is_default,
                    };
                    out.push(info);
                    proof {
                        assert forall|k: int| 0 <= k < out@.len() implies describes(
                            #[trigger] out@[k],
                            listing.host@,
                            listing.default_device,
                            usable_reports(ds@.subrange(0, i + 1))[k],
                        ) by {
                            if k < before.len() {
                                assert(usable_reports(ds@.subrange(0, i + 1))[k] == before[k]);
                            }
                        }
                    }
                }
            },
            _ => {},
        }
        i = i + 1;
    }
    assert(ds@.subrange(0, ds@.len() as int) =~= ds@);
    if out.len() == 0 {
        return Err(AudioError::NoDevices);
    }
    Ok(out)
}

/// What opening an input means, before the driver is asked.
#[derive(Debug)]
pub enum CapturePlan {
    /// The generator, settled.
    Synthetic(synthetic::SyntheticOpen),
    /// Open this host; then pick the device with [`choose_device`] and
    /// settle its configuration with [`settle_config`].
    Device(HostChoice),
}

/// Open an input: the generator if the host is the generator, otherwise the
/// platform's audio session is readied for measurement and the host is
/// found.
pub fn open(opts: &CaptureOptions, available: &Vec<String>) -> (r: Result<CapturePlan, AudioError>)
    ensures
        synthetic::is_generator_id(opt_string_view(opts.host)) ==> match r {
            Ok(CapturePlan::Synthetic(o)) => synthetic::opens(*opts, Ok(o)),
            Ok(CapturePlan::Device(_)) => false,
            Err(e) => synthetic::opens(*opts, Err(e)),
        },
        !synthetic::is_generator_id(opt_string_view(opts.host)) ==> match r {
            Ok(CapturePlan::Device(c)) => find_host_spec(opt_string_view(opts.host), available@, c),
            Err(AudioError::UnknownHost(e)) => opts.host matches Some(x) && e@ == x@ && forall|k: int|
                0 <= k < available@.len() ==> !eq_ignore_ascii_case(#[trigger] available@[k]@, x@),
            _ => false,
        },
{
    let host: Option<&str> = match &opts.host {
        Some(h) => Some(h.as_str()),
        None => None,
    };
    if synthetic::is_host(host) {
        return match synthetic::open(opts) {
            Ok(o) => Ok(CapturePlan::Synthetic(o)),
            Err(e) => Err(e),
        };
    }
    match crate::audio_session::prepare_for_measurement() {
        Ok(()) => {},
        Err(e) => {
            return Err(AudioError::Backend(e));
        },
    }
    match find_host(host, available) {
        Ok(c) => Ok(CapturePlan::Device(c)),
        Err(e) => Err(e),
    }
}

/// The characters of an optional string slice.
pub open spec fn opt_view(s: Option<&str>) -> Option<Seq<char>> {
    match s {
        Some(x) => Some(x@),
        None => None,
    }
}

/// The characters of an optional string.
pub open spec fn opt_string_view(s: Option<String>) -> Option<Seq<char>> {
    match s {
        Some(x) => Some(x@),
        None => None,
    }
}

/// Which device to open, once the host is open.
#[derive(Debug, Clone, Copy, PartialEq, Eq, Structural)]
pub enum DeviceChoice {
    /// The host's default device of this kind.
    Default,
    /// The listed device at this position.
    Listed(usize),
}

/// Pick the device to open from the names the host lists (`None` for one
/// that would not describe itself): the first listed under the name asked
/// for, or the host's default when none is asked for. A name nothing has is
/// [`AudioError::UnknownDevice`] for an input and
/// [`AudioError::UnknownOutputDevice`] for an output; no default is
/// [`AudioError::NoDevices`].
pub fn choose_device(
    want: Option<&str>,
    names: &Vec<Option<String>>,
    has_default: bool,
    output: bool,
) -> (r: Result<DeviceChoice, AudioError>)
    ensures
        match want {
            None => if has_default {
                r == Ok::<DeviceChoice, AudioError>(DeviceChoice::Default)
            } else {
                r matches Err(AudioError::NoDevices)
            },
            Some(w) => match r {
                Ok(DeviceChoice::Listed(i)) => {
                    &&& i < names@.len()
                    &&& names@[i as int] matches Some(n) && n@ == w@
                    &&& forall|k: int|
                        0 <= k < i ==> !(#[trigger] names@[k] matches Some(n) && n@ == w@)
                },
                Err(AudioError::UnknownDevice(e)) => !output && e@ == w@ && forall|k: int|
                    0 <= k < names@.len() ==> !(#[trigger] names@[k] matches Some(n) && n@ == w@),
                Err(AudioError::UnknownOutputDevice(e)) => output && e@ == w@ && forall|k: int|
                    0 <= k < names@.len() ==> !(#[trigger] names@[k] matches Some(n) && n@ == w@),
                _ => false,
            },
        },
{
    match want {
        None => {
            if has_default {
                Ok(DeviceChoice::Default)
            } else {
                Err(AudioError::NoDevices)
            }
        },
        Some(w) => {
            let target = String::from_str(w);
            let mut i: usize = 0;
            while i < names.len()
                invariant
                    want == Some(w),
                    target@ == w@,
                    i <= names@.len(),
                    forall|k: int|
                        0 <= k < i ==> !(#[trigger] names@[k] matches Some(n) && n@ == w@),
                decreases names@.len() - i,
            {
                match &names[i] {
                    Some(n) => {
                        if *n == target {
                            return Ok(DeviceChoice::Listed(i));
                        }
                    },
                    None => {},
                }
                i = i + 1;
            }
            if output {
                Err(AudioError::UnknownOutputDevice(target))
            } else {
                Err(AudioError::UnknownDevice(target))
            }
        },
    }
}

/// Some configuration has `channels` channels and covers `rate`.
pub open spec fn supports_config(configs: Seq<ConfigRange>, channels: u16, rate: u32) -> bool {
    exists|i: int|
        0 <= i < configs.len() && #[trigger] configs[i].channels == channels
            && configs[i].min_sample_rate <= rate && rate <= configs[i].max_sample_rate
}

/// Settle the rate a stream runs at: the one asked for, or the device's
/// default. The device must offer it at its default channel count; if not,
/// the request is refused with [`AudioError::UnsupportedConfig`] rather than
/// silently changed.
pub fn settle_config(
    device: &str,
    requested_rate: Option<u32>,
    default_rate: u32,
    channels: u16,
    configs: &Vec<ConfigRange>,
) -> (r: Result<u32, AudioError>)
    ensures
        ({
            let rate = match requested_rate {
                Some(x) => x,
                None => default_rate,
            };
            match r {
                Ok(x) => x == rate && supports_config(configs@, channels, rate),
                Err(AudioError::UnsupportedConfig { device: d, rate: e, channels: c }) => {
                    &&& d@ == device@
                    &&& e == rate
                    &&& c == channels
                    &&& !supports_config(configs@, channels, rate)
                },
                Err(_) => false,
            }
        }),
        // Any configuration in the list that has the channel count and holds
        // the rate, both ends included, is enough.
        forall|i: int|
            0 <= i < configs@.len() && #[trigger] configs@[i].channels == channels
                && configs@[i].min_sample_rate <= (match requested_rate {
                Some(x) => x,
                None => default_rate,
            }) && (match requested_rate {
                Some(x) => x,
                None => default_rate,
            }) <= configs@[i].max_sample_rate ==> r == Ok::<u32, AudioError>(match requested_rate {
                Some(x) => x,
                None => default_rate,
            }),
{
    let rate = match requested_rate {
        Some(x) => x,
        None => default_rate,
    };
    let mut i: usize = 0;
    while i < configs.len()
        invariant
            rate == match requested_rate {
                Some(x) => x,
                None => default_rate,
            },
            i <= configs@.len(),
            forall|k: int|
                0 <= k < i ==> !(#[trigger] configs@[k].channels == channels
                    && configs@[k].min_sample_rate <= rate && rate <= configs@[k].max_sample_rate),
        decreases configs@.len() - i,
    {
        let c = configs[i];
        if c.channels == channels && c.min_sample_rate <= rate && rate <= c.max_sample_rate {
            assert(configs@[i as int].channels == channels);
            return Ok(rate);
        }
        i = i + 1;
    }
    Err(AudioError::UnsupportedConfig { device: String::from_str(device), rate, channels })
}

/// How many samples the ring between the driver and the analysis holds:
/// [`RING_SECONDS`] of audio at `rate` with `channels` channels.
pub fn ring_capacity(rate: u32, channels: u16) -> (r: usize)
    requires
        rate as int * RING_SECONDS as int * channels as int <= usize::MAX,
    ensures
        r == rate as int * RING_SECONDS as int * channels as int,
{
    if channels == 0 {
        return 0;
    }
    let a = rate as usize;
    assert(a * RING_SECONDS <= a * RING_SECONDS * channels) by (nonlinear_arith)
        requires
            channels >= 1,
    ;
    (a * RING_SECONDS) * channels as usize
}

/// How a block of `len` samples fits into a ring with `room` free slots:
/// as many as fit are taken, and the rest are counted as dropped. A
/// measurement that quietly stretched time would be worse than one that
/// admits a gap.
pub fn ring_split(room: usize, len: usize) -> (r: (usize, u64))
    ensures
        r.0 == (if room < len { room } else { len }),
        r.1 == len - r.0,
{
    let take = if room < len { room } else { len };
    (take, (len - take) as u64)
}

/// Open an output: the platform's audio session is readied, and the host
/// found. The generator has no outputs.
pub fn open_output(opts: &OutputOptions, available: &Vec<String>) -> (r: Result<HostChoice, AudioError>)
    ensures
        match r {
            Ok(c) => find_host_spec(opt_string_view(opts.host), available@, c),
            Err(AudioError::UnknownHost(e)) => opts.host matches Some(x) && e@ == x@ && forall|k: int|
                0 <= k < available@.len() ==> !eq_ignore_ascii_case(#[trigger] available@[k]@, x@),
            _ => false,
        },
{
    match crate::audio_session::prepare_for_measurement() {
        Ok(()) => {},
        Err(e) => {
            return Err(AudioError::Backend(e));
        },
    }
    let host: Option<&str> = match &opts.host {
        Some(h) => Some(h.as_str()),
        None => None,
    };
    find_host(host, available)
}

/// A listed host can be reopened by the id it is listed under: when no two
/// available hosts share an id (ignoring ASCII case), looking up the id of
/// the `i`-th finds the `i`-th.
pub proof fn lemma_listed_hosts_reopen(available: Seq<String>, i: int)
    requires
        0 <= i < available.len(),
        forall|a: int, b: int|
            0 <= a < b < available.len() ==> !eq_ignore_ascii_case(available[a]@, available[b]@),
    ensures
        first_host_match(available, available[i]@, i),
{
    assert forall|k: int| 0 <= k < i implies !eq_ignore_ascii_case(#[trigger] available[k]@, available[i]@) by {}
}

/// A described device always offers its own default rate, and offers each
/// rate once, ascending.
pub proof fn lemma_described_devices_offer_their_default(
    info: DeviceInfo,
    host: Seq<char>,
    default_device: Option<String>,
    d: DeviceReport,
)
    requires
        describes(info, host, default_device, d),
    ensures
        info.sample_rates@.contains(info.default_sample_rate),
        strictly_increasing(info.sample_rates@),
{
    assert(listed_rate(d.configs->0@, default_rate_of(d), info.default_sample_rate));
}

/// A described device offers every rate worth offering that any one of its
/// configurations holds, both ends of the range included; and every rate
/// it offers is either its default or a rate worth offering that some
/// configuration holds.
pub proof fn lemma_described_devices_offer_every_rate_their_configs_hold(
    info: DeviceInfo,
    host: Seq<char>,
    default_device: Option<String>,
    d: DeviceReport,
    r: u32,
)
    requires
        describes(info, host, default_device, d),
    ensures
        OFFERED_RATES@.contains(r) && (exists|i: int|
            0 <= i < d.configs->0@.len() && #[trigger] d.configs->0@[i].min_sample_rate <= r
                && r <= d.configs->0@[i].max_sample_rate) ==> info.sample_rates@.contains(r),
        info.sample_rates@.contains(r) ==> r == info.default_sample_rate || (OFFERED_RATES@.contains(
            r,
        ) && exists|i: int|
            0 <= i < d.configs->0@.len() && #[trigger] d.configs->0@[i].min_sample_rate <= r
                && r <= d.configs->0@[i].max_sample_rate),
{
    let configs = d.configs->0@;
    assert(OFFERED_RATES@ == seq![44100u32, 48000, 88200, 96000, 176400, 192000]);
    assert(OFFERED_RATES@.contains(r) <==> is_offered_rate(r)) by {
        if is_offered_rate(r) {
            if r == 44100 { assert(OFFERED_RATES@[0] == r); }
            if r == 48000 { assert(OFFERED_RATES@[1] == r); }
            if r == 88200 { assert(OFFERED_RATES@[2] == r); }
            if r == 96000 { assert(OFFERED_RATES@[3] == r); }
            if r == 176400 { assert(OFFERED_RATES@[4] == r); }
            if r == 192000 { assert(OFFERED_RATES@[5] == r); }
        }
    }
}

/// A stream can run at a rate exactly when some configuration anywhere in
/// the list has the channel count and holds the rate, both ends included:
/// no earlier configuration with the same channel count hides a later one.
pub proof fn lemma_a_config_anywhere_settles_the_rate(
    configs: Seq<ConfigRange>,
    channels: u16,
    rate: u32,
    i: int,
)
    requires
        0 <= i < configs.len(),
        configs[i].channels == channels,
        configs[i].min_sample_rate <= rate <= configs[i].max_sample_rate,
    ensures
        supports_config(configs, channels, rate),
{
    assert(configs[i].channels == channels && configs[i].min_sample_rate <= rate && rate
        <= configs[i].max_sample_rate);
}

/// A configuration that lacks the channel count, or does not hold the
/// rate, never settles it: a rate is settled only through a configuration
/// that has both.
pub proof fn lemma_only_a_matching_config_settles_the_rate(
    configs: Seq<ConfigRange>,
    channels: u16,
    rate: u32,
)
    requires
        forall|i: int|
            0 <= i < configs.len() ==> #[trigger] configs[i].channels != channels
                || rate < configs[i].min_sample_rate || configs[i].max_sample_rate < rate,
    ensures
        !supports_config(configs, channels, rate),
{
}

} // verus!
