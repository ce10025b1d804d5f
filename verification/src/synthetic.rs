//! A measurement source that is not a device.
//!
//! The signal generator is presented as a host with one device per signal,
//! so a measurement can be run against a signal whose level is known, on a
//! machine with no interface and no microphone. Generating the samples and
//! pacing them by the clock happen outside this crate; which signals exist,
//! what they are called, and what opening one means stand here.
//!
//! It answers "is the analyser reading what it should?" and nothing about a
//! room: there is no microphone in the chain, so it cannot be calibrated.

use vstd::prelude::*;
use crate::audio::{
    AudioError, CaptureOptions, DeviceInfo, HostInfo, StreamInfo, OFFERED_RATES, is_offered_rate,
    opt_view,
};
use crate::text::{eq_ignore_ascii_case, str_eq_ignore_ascii_case};

verus! {

/// Host id for the generator, matched with ASCII case ignored.
pub const HOST_ID: &'static str = "Generator";

/// What the interface calls it.
pub const HOST_NAME: &'static str = "Signal generator";

/// Rate used when nothing asks for one.
pub const DEFAULT_RATE: u32 = 48000;

/// Why the generator is there, and why it cannot be calibrated.
pub const NOTE: &'static str = "A synthetic source, generated in software. Useful for checking the analyser against a signal whose level is known; it cannot be calibrated, because there is no microphone in the chain.";

/// The signals offered, in the order they are listed. Pink noise is first
/// and the default: it is flat on a fractional-octave display, so a wrong
/// window or band integration shows as a tilt rather than a plausible curve.
pub const SIGNAL_NAMES: [&'static str; 4] = [
    "Pink noise at -20 dBFS",
    "White noise at -20 dBFS",
    "1 kHz sine at -20 dBFS",
    "Log sweep 20 Hz to 20 kHz at -20 dBFS",
];

/// The number of signals offered.
pub const SIGNAL_COUNT: usize = 4;

/// `id` names the generator.
pub open spec fn is_generator_id(id: Option<Seq<char>>) -> bool {
    id matches Some(x) && eq_ignore_ascii_case(x, HOST_ID@)
}

/// Whether a host id names the generator.
pub fn is_host(id: Option<&str>) -> (r: bool)
    ensures
        r == is_generator_id(opt_view(id)),
{
    match id {
        Some(x) => str_eq_ignore_ascii_case(x, HOST_ID),
        None => false,
    }
}

/// `h` is the generator's entry in the host list.
pub open spec fn is_generator_host(h: HostInfo) -> bool {
    &&& h.id@ == HOST_ID@
    &&& h.name@ == HOST_NAME@
    &&& h.available
    &&& !h.is_default
    &&& h.note matches Some(n) && n@ == NOTE@
}

/// The generator, as a host. Available, and never the default: someone who
/// opens a meter to measure something should meet their own inputs first.
pub fn host() -> (r: HostInfo)
    ensures
        is_generator_host(r),
{
    HostInfo {
        id: String::from_str(HOST_ID),
        name: String::from_str(HOST_NAME),
        available: true,
        is_default: false,
        note: Some(String::from_str(NOTE)),
    }
}

/// The name of signal `k`.
pub open spec fn signal_name(k: int) -> Seq<char> {
    SIGNAL_NAMES@[k]@
}

/// `v` lists every signal, in order, as a device: mono, at every offered
/// rate, 48 kHz by default, the first one the default device.
pub open spec fn are_signal_devices(v: Seq<DeviceInfo>) -> bool {
    &&& v.len() == SIGNAL_COUNT
    &&& forall|k: int|
        0 <= k < v.len() ==> {
            &&& (#[trigger] v[k]).host@ == HOST_ID@
            &&& v[k].name@ == signal_name(k)
            &&& v[k].max_channels == 1
            &&& v[k].sample_rates@ == OFFERED_RATES@
            &&& v[k].default_sample_rate == DEFAULT_RATE
            &&& v[k].is_default == (k == 0)
        }
}

/// The signals, described as input devices. Every offered rate is listed,
/// because the generator genuinely runs at all of them.
pub fn devices() -> (r: Vec<DeviceInfo>)
    ensures
        are_signal_devices(r@),
{
    let mut out: Vec<DeviceInfo> = Vec::new();
    let mut k: usize = 0;
    while k < SIGNAL_COUNT
        invariant
            k <= SIGNAL_COUNT,
            out@.len() == k,
            forall|j: int|
                0 <= j < k ==> {
                    &&& (#[trigger] out@[j]).host@ == HOST_ID@
                    &&& out@[j].name@ == signal_name(j)
                    &&& out@[j].max_channels == 1
                    &&& out@[j].sample_rates@ == OFFERED_RATES@
                    &&& out@[j].default_sample_rate == DEFAULT_RATE
                    &&& out@[j].is_default == (j == 0)
                },
        decreases SIGNAL_COUNT - k,
    {
        let mut rates: Vec<u32> = Vec::new();
        let mut i: usize = 0;
        while i < 6
            invariant
                i <= 6,
                rates@ == OFFERED_RATES@.subrange(0, i as int),
            decreases 6 - i,
        {
            rates.push(OFFERED_RATES[i]);
            i = i + 1;
        }
        assert(rates@ =~= OFFERED_RATES@);
        out.push(
            DeviceInfo {
                host: String::from_str(HOST_ID),
                name: String::from_str(SIGNAL_NAMES[k]),
                max_channels: 1,
                sample_rates: rates,
                default_sample_rate: DEFAULT_RATE,
                is_default: k == 0,
            },
        );
        k = k + 1;
    }
    out
}

/// What opening the generator settles on: which signal, under what name,
/// at what rate. Always one channel.
#[derive(Debug, Clone)]
pub struct SyntheticOpen {
    /// Position of the signal in [`SIGNAL_NAMES`].
    pub signal: usize,
    /// Its name, which the stream reports as its device.
    pub device: String,
    pub sample_rate: u32,
}

/// The sample format the generator reports. Not a driver format: saying
/// `F32` alone would suggest a device handed over floats, and the one thing
/// this source must never do is look like an input.
pub const SAMPLE_FORMAT: &'static str = "F32 (generated)";

impl SyntheticOpen {
    /// The stream the generator reports once it runs: the generator host,
    /// the signal's name as the device, one channel, the settled rate, and
    /// [`SAMPLE_FORMAT`].
    pub fn stream_info(&self) -> (r: StreamInfo)
        ensures
            r.host@ == HOST_ID@,
            r.device@ == self.device@,
            r.channels == 1,
            r.sample_rate == self.sample_rate,
            r.sample_format@ == SAMPLE_FORMAT@,
    {
        StreamInfo {
            host: String::from_str(HOST_ID),
            device: self.device.clone(),
            channels: 1,
            sample_rate: self.sample_rate,
            sample_format: String::from_str(SAMPLE_FORMAT),
        }
    }
}

/// The signal a request names: the first with exactly that name, or the
/// first signal when none is named.
pub open spec fn requested_signal(device: Option<String>, k: int) -> bool {
    &&& 0 <= k < SIGNAL_COUNT
    &&& match device {
        None => k == 0,
        Some(want) => signal_name(k) == want@ && forall|j: int|
            0 <= j < k ==> signal_name(j) != want@,
    }
}

/// The rate a request asks for: the one named, or 48 kHz.
pub open spec fn requested_rate(opts: CaptureOptions) -> u32 {
    match opts.sample_rate {
        Some(x) => x,
        None => DEFAULT_RATE,
    }
}

/// `r` is what opening the generator with `opts` gives.
pub open spec fn opens(opts: CaptureOptions, r: Result<SyntheticOpen, AudioError>) -> bool {
    match r {
        Ok(o) => {
            &&& requested_signal(opts.device, o.signal as int)
            &&& o.device@ == signal_name(o.signal as int)
            &&& o.sample_rate == requested_rate(opts)
            &&& is_offered_rate(o.sample_rate)
        },
        Err(AudioError::UnknownDevice(want)) => opts.device matches Some(w) && want@ == w@
            && forall|j: int| 0 <= j < SIGNAL_COUNT ==> signal_name(j) != w@,
        Err(AudioError::UnsupportedConfig { device, rate, channels }) => exists|k: int|
            requested_signal(opts.device, k) && device@ == signal_name(k) && rate
                == requested_rate(opts) && !is_offered_rate(rate) && channels == 1,
        Err(_) => false,
    }
}

/// Open the generator: pick the signal asked for (the first if none is) at
/// the rate asked for (48 kHz if none is). A signal that does not exist is
/// [`AudioError::UnknownDevice`]; a rate nothing offers is refused with
/// [`AudioError::UnsupportedConfig`] rather than silently substituted.
pub fn open(opts: &CaptureOptions) -> (r: Result<SyntheticOpen, AudioError>)
    ensures
        opens(*opts, r),
{
    let mut k: usize = 0;
    match &opts.device {
        None => {},
        Some(want) => {
            while k < SIGNAL_COUNT
                invariant
                    k <= SIGNAL_COUNT,
                    forall|j: int| 0 <= j < k ==> signal_name(j) != want@,
                ensures
                    k < SIGNAL_COUNT ==> signal_name(k as int) == want@,
                decreases SIGNAL_COUNT - k,
            {
                let candidate = String::from_str(SIGNAL_NAMES[k]);
                if candidate == *want {
                    break;
                }
                k = k + 1;
            }
            if k == SIGNAL_COUNT {
                return Err(AudioError::UnknownDevice(want.clone()));
            }
        },
    }
    let name = String::from_str(SIGNAL_NAMES[k]);
    let rate = match opts.sample_rate {
        Some(x) => x,
        None => DEFAULT_RATE,
    };
    let mut i: usize = 0;
    let mut offered = false;
    assert(OFFERED_RATES@ == seq![44100u32, 48000, 88200, 96000, 176400, 192000]);
    while i < 6
        invariant
            i <= 6,
            OFFERED_RATES@ == seq![44100u32, 48000, 88200, 96000, 176400, 192000],
            offered == exists|j: int| 0 <= j < i && OFFERED_RATES@[j] == rate,
        decreases 6 - i,
    {
        if OFFERED_RATES[i] == rate {
            offered = true;
        }
        i = i + 1;
    }
    assert(offered == is_offered_rate(rate)) by {
        if is_offered_rate(rate) {
            if rate == 44100 { assert(OFFERED_RATES@[0] == rate); }
            if rate == 48000 { assert(OFFERED_RATES@[1] == rate); }
            if rate == 88200 { assert(OFFERED_RATES@[2] == rate); }
            if rate == 96000 { assert(OFFERED_RATES@[3] == rate); }
            if rate == 176400 { assert(OFFERED_RATES@[4] == rate); }
            if rate == 192000 { assert(OFFERED_RATES@[5] == rate); }
        }
    }
    if !offered {
        assert(requested_signal(opts.device, k as int));
        assert(name@ == signal_name(k as int));
        assert(requested_signal(opts.device, k as int) && name@ == signal_name(k as int) && rate
            == requested_rate(*opts) && !is_offered_rate(rate));
        return Err(AudioError::UnsupportedConfig { device: name, rate, channels: 1 });
    }
    Ok(SyntheticOpen { signal: k, device: name, sample_rate: rate })
}

/// Every signal listed as a device opens under the name it is listed
/// with, at any rate it is listed with: the names are all different, so
/// asking for the `k`-th by name finds the `k`-th.
pub proof fn lemma_every_signal_opens(k: int, rate: u32)
    requires
        0 <= k < SIGNAL_COUNT,
        OFFERED_RATES@.contains(rate),
    ensures
        forall|want: String| want@ == signal_name(k) ==> #[trigger] requested_signal(Some(want), k),
        is_offered_rate(rate),
{
    reveal_strlit("Pink noise at -20 dBFS");
    reveal_strlit("White noise at -20 dBFS");
    reveal_strlit("1 kHz sine at -20 dBFS");
    reveal_strlit("Log sweep 20 Hz to 20 kHz at -20 dBFS");
    assert(SIGNAL_NAMES@[0]@[0] == 'P');
    assert(SIGNAL_NAMES@[1]@[0] == 'W');
    assert(SIGNAL_NAMES@[2]@[0] == '1');
    assert(SIGNAL_NAMES@[3]@[0] == 'L');
    assert forall|j: int| 0 <= j < k implies signal_name(j) != signal_name(k) by {
        assert(signal_name(j)[0] != signal_name(k)[0]);
    }
    assert(OFFERED_RATES@ == seq![44100u32, 48000, 88200, 96000, 176400, 192000]);
}

} // verus!
