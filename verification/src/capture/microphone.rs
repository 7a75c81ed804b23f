//! The microphone: its parameters, how it is opened, and the decisions of the
//! loop that reads packets, decodes and resamples them, and hands the samples
//! to the feed.

use crate::bifaci::live_feed::{
    meta_view, LiveFeedSelector, MetaValue, MetaView, ParamValue, RuntimeError,
};
use crate::capture::device::{low_bits, quotient, ticks_to_us, Platform};
use crate::text::{add_text, decimal, decimal_text, owned, same_text};
use vstd::prelude::*;

verus! {

broadcast use vstd::string::group_string_axioms;

/// Samples per second unless the selector says so.
pub const DEFAULT_SAMPLE_RATE: u64 = 48000;

/// Channels unless the selector says so.
pub const DEFAULT_CHANNELS: u64 = 1;

/// What is captured.
#[derive(Debug, Clone, Copy, PartialEq, Eq, Structural)]
pub struct MicFormat {
    pub sample_rate: u64,
    pub channels: u64,
}

/// What the parameters ask for, or the message of the first that is wrong: one
/// that is not known, or is no count.
pub open spec fn mic_params(entries: Seq<(String, ParamValue)>) -> Result<MicFormat, Seq<char>>
    decreases entries.len(),
{
    if entries.len() == 0 {
        Ok(MicFormat { sample_rate: DEFAULT_SAMPLE_RATE, channels: DEFAULT_CHANNELS })
    } else {
        match mic_params(entries.drop_last()) {
            Err(e) => Err(e),
            Ok(f) => {
                let key = entries.last().0@;
                if key == "sample_rate"@ || key == "channels"@ {
                    match entries.last().1 {
                        ParamValue::Other(json) => Err(
                            "microphone param '"@ + key
                                + "' must be a positive integer, got "@ + json@,
                        ),
                        ParamValue::Count(n) => if key == "sample_rate"@ {
                            Ok(MicFormat { sample_rate: n, channels: f.channels })
                        } else {
                            Ok(MicFormat { sample_rate: f.sample_rate, channels: n })
                        },
                    }
                } else {
                    Err(
                        "microphone capture knows no param '"@ + key
                            + "' — known params: sample_rate, channels"@,
                    )
                }
            },
        }
    }
}

/// Once a parameter was wrong, the message stays.
proof fn lemma_params_stuck(entries: Seq<(String, ParamValue)>, n: int)
    requires
        0 <= n <= entries.len(),
        mic_params(entries.subrange(0, n)) is Err,
    ensures
        mic_params(entries) == mic_params(entries.subrange(0, n)),
    decreases entries.len() - n,
{
    if n == entries.len() {
        assert(entries.subrange(0, n) =~= entries);
    } else {
        assert(entries.subrange(0, n + 1).drop_last() =~= entries.subrange(0, n));
        lemma_params_stuck(entries, n + 1);
    }
}

/// What the selector asks for; both numbers are positive.
pub fn capture_format(selector: &LiveFeedSelector) -> (r: Result<MicFormat, RuntimeError>)
    ensures
        match mic_params(selector.params.entries@) {
            Err(text) => r is Err && r->Err_0.message() == text,
            Ok(f) => if f.sample_rate == 0 || f.channels == 0 {
                r is Err && r->Err_0.message()
                    == "microphone sample_rate and channels must be positive"@
            } else {
                r == Ok::<MicFormat, RuntimeError>(f)
            },
        },
{
    let ghost all = selector.params.entries@;
    let mut f = MicFormat { sample_rate: DEFAULT_SAMPLE_RATE, channels: DEFAULT_CHANNELS };
    let mut i: usize = 0;
    assert(all.subrange(0, 0) =~= Seq::<(String, ParamValue)>::empty());
    while i < selector.params.entries.len()
        invariant
            i <= all.len(),
            all == selector.params.entries@,
            mic_params(all.subrange(0, i as int)) == Ok::<MicFormat, Seq<char>>(f),
        decreases all.len() - i,
    {
        assert(all.subrange(0, i + 1).drop_last() =~= all.subrange(0, i as int));
        let entry = &selector.params.entries[i];
        let is_rate = same_text(&entry.0, "sample_rate");
        if is_rate || same_text(&entry.0, "channels") {
            match &entry.1 {
                ParamValue::Other(json) => {
                    let mut t = owned("microphone param '");
                    add_text(&mut t, &entry.0);
                    add_text(&mut t, "' must be a positive integer, got ");
                    add_text(&mut t, json);
                    proof {
                        lemma_params_stuck(all, i + 1);
                    }
                    return Err(RuntimeError::Handler(t));
                },
                ParamValue::Count(n) => {
                    if is_rate {
                        f.sample_rate = *n;
                    } else {
                        f.channels = *n;
                    }
                },
            }
        } else {
            let mut t = owned("microphone capture knows no param '");
            add_text(&mut t, &entry.0);
            add_text(&mut t, "' — known params: sample_rate, channels");
            proof {
                lemma_params_stuck(all, i + 1);
            }
            return Err(RuntimeError::Handler(t));
        }
        i = i + 1;
    }
    assert(all.subrange(0, all.len() as int) =~= all);
    if f.sample_rate == 0 || f.channels == 0 {
        return Err(
            RuntimeError::Handler(owned("microphone sample_rate and channels must be positive")),
        );
    }
    Ok(f)
}

/// The input format of the platform's microphones; empty where there is none.
pub fn input_format_name(platform: Platform) -> (r: &'static str)
    ensures
        r@ == (match platform {
            Platform::Linux => "alsa"@,
            Platform::MacOs => "avfoundation"@,
            Platform::Other => ""@,
        }),
{
    match platform {
        Platform::Linux => "alsa",
        Platform::MacOs => "avfoundation",
        Platform::Other => "",
    }
}

/// The device that is used where the selector names none.
pub fn default_device(platform: Platform) -> (r: &'static str)
    ensures
        r@ == (match platform {
            Platform::Linux => "default"@,
            Platform::MacOs => ":0"@,
            Platform::Other => ""@,
        }),
{
    match platform {
        Platform::Linux => "default",
        Platform::MacOs => ":0",
        Platform::Other => "",
    }
}

/// How a microphone is opened.
#[derive(Debug)]
pub struct MicPlan {
    pub format_name: &'static str,
    pub device: String,
    pub format: MicFormat,
}

/// How the microphone that a selector names is opened. Wrong parameters, and a
/// platform without microphones, are errors.
pub fn open(selector: &LiveFeedSelector, platform: Platform) -> (r: Result<MicPlan, RuntimeError>)
    ensures
        match mic_params(selector.params.entries@) {
            Err(text) => r is Err && r->Err_0.message() == text,
            Ok(f) => if f.sample_rate == 0 || f.channels == 0 {
                r is Err && r->Err_0.message()
                    == "microphone sample_rate and channels must be positive"@
            } else if platform == Platform::Other {
                r is Err && r->Err_0.message()
                    == "no microphone capture backend is built for this platform"@
            } else {
                &&& r is Ok
                &&& r->Ok_0.format == f
                &&& r->Ok_0.format_name@ == (if platform == Platform::Linux {
                    "alsa"@
                } else {
                    "avfoundation"@
                })
                &&& r->Ok_0.device@ == (match selector.device {
                    Some(d) => d@,
                    None => if platform == Platform::Linux {
                        "default"@
                    } else {
                        ":0"@
                    },
                })
            },
        },
{
    let format = match capture_format(selector) {
        Ok(f) => f,
        Err(e) => {
            return Err(e);
        },
    };
    let format_name = input_format_name(platform);
    if platform == Platform::Other {
        return Err(
            RuntimeError::Handler(
                owned("no microphone capture backend is built for this platform"),
            ),
        );
    }
    let device = match &selector.device {
        Some(d) => d.clone(),
        None => owned(default_device(platform)),
    };
    Ok(MicPlan { format_name, device, format })
}

/// The options that the device is opened with, in the order in which they are
/// set.
pub fn device_options(format: &MicFormat) -> (r: Vec<(String, String)>)
    ensures
        r@.len() == 2,
        r@[0].0@ == "sample_rate"@,
        r@[0].1@ == decimal(format.sample_rate as nat),
        r@[1].0@ == "channels"@,
        r@[1].1@ == decimal(format.channels as nat),
{
    let mut out: Vec<(String, String)> = Vec::new();
    out.push((owned("sample_rate"), decimal_text(format.sample_rate)));
    out.push((owned("channels"), decimal_text(format.channels)));
    out
}

/// The metadata of the stream.
pub fn stream_meta(format: &MicFormat) -> (r: Vec<(String, MetaValue)>)
    ensures
        meta_view(r@) == seq![
            ("feed"@, MetaView::Text("microphone"@)),
            ("sample_rate"@, MetaView::Integer(format.sample_rate)),
            ("channels"@, MetaView::Integer(format.channels)),
            ("sample_format"@, MetaView::Text("s16le"@)),
        ],
{
    let mut out: Vec<(String, MetaValue)> = Vec::new();
    out.push((owned("feed"), MetaValue::Text(owned("microphone"))));
    out.push((owned("sample_rate"), MetaValue::Integer(format.sample_rate)));
    out.push((owned("channels"), MetaValue::Integer(format.channels)));
    out.push((owned("sample_format"), MetaValue::Text(owned("s16le"))));
    assert(meta_view(out@) =~= seq![
        ("feed"@, MetaView::Text("microphone"@)),
        ("sample_rate"@, MetaView::Integer(format.sample_rate)),
        ("channels"@, MetaView::Integer(format.channels)),
        ("sample_format"@, MetaView::Text("s16le"@)),
    ]);
    out
}

// ---------------------------------------------------------------------------
// The loop
// ---------------------------------------------------------------------------

/// What the loop waits for.
#[derive(Debug)]
pub enum MicState {
    /// A packet from the device.
    Reading,
    /// The decoder's word on the packet.
    Sending { pts: i64 },
    /// A frame from the decoder.
    Receiving { pts: i64 },
    /// The frame's channel layout.
    Normalizing { pts: i64 },
    /// The resampler's first setup.
    Preparing { pts: i64 },
    /// Converted samples; `again` after the resampler was set up anew.
    Converting { pts: i64, again: bool },
    /// The resampler's new setup, after a conversion failed for `reason`.
    Repairing { pts: i64, reason: String },
    /// The feed's word on an item.
    Pushing { pts: i64 },
    /// Nothing: the device is released.
    Over,
}

/// What happened.
#[derive(Debug)]
pub enum MicEvent {
    /// No packet is there yet.
    ReadAgain,
    /// A packet of another stream.
    ReadOther,
    /// A packet of the captured stream, with its time.
    ReadPacket { pts: i64 },
    /// There is no frame, or the packet was not taken.
    Nothing,
    /// It worked.
    Done,
    /// It failed, for this reason.
    Failed { reason: String },
    /// This many samples came out of the conversion, with or without data.
    Samples { samples: u64, has_data: bool },
    /// The feed took the item and wants more.
    Taken,
    /// The feed wants no more.
    Refused,
}

/// What is done next.
#[derive(Debug)]
pub enum MicAction {
    /// Reads a packet, after a short sleep.
    SleepAndRead,
    /// Lets the packet go and reads another.
    DropAndRead,
    /// Sends the packet to the decoder.
    Send,
    /// Receives a frame, after letting go of the one before.
    Receive,
    /// Normalizes the frame's channel layout.
    Normalize,
    /// Sets the resampler up from the frame.
    Setup,
    /// Converts the frame.
    Convert,
    /// Pushes this many bytes with this time.
    Push { bytes: u64, pts_us: u64 },
    /// Fails the feed with this message and releases the device.
    FailAndRelease { message: String },
    /// Releases the device.
    Release,
    /// The event does not fit; nothing is done.
    Ignore,
}

/// The loop: what it waits for, and what it knows.
#[derive(Debug)]
pub struct MicPump {
    pub state: MicState,
    /// The resampler was set up.
    pub ready: bool,
    pub channels: u64,
    /// The seconds of a tick, as a fraction.
    pub num: i32,
    pub den: i32,
}

/// The time of an item: that of its packet; 0 where the packet has none.
pub open spec fn mic_time(pts: i64, num: i32, den: i32) -> int {
    if pts >= 0 {
        low_bits(quotient(pts * num * 1_000_000, if den < 1 {
            1
        } else {
            den as int
        }))
    } else {
        0
    }
}

/// The action fails the feed with this message.
pub open spec fn fails_with(action: MicAction, message: Seq<char>) -> bool {
    action matches MicAction::FailAndRelease { message: m } && m@ == message
}

/// One step of the loop: what it waits for then, whether the resampler is set
/// up, and what is done. `closed` says whether the feed is closed.
pub open spec fn mic_step(
    pump: MicPump,
    event: MicEvent,
    closed: bool,
    state: MicState,
    ready: bool,
    action: MicAction,
) -> bool {
    match (pump.state, event) {
        (MicState::Reading, MicEvent::ReadAgain) => state is Reading && ready == pump.ready
            && action is SleepAndRead,
        (MicState::Reading, MicEvent::ReadOther) => state is Reading && ready == pump.ready
            && action is DropAndRead,
        (MicState::Reading, MicEvent::ReadPacket { pts }) => state == (MicState::Sending { pts })
            && ready == pump.ready && action is Send,
        (MicState::Reading, MicEvent::Failed { reason }) => state is Over && ready == pump.ready
            && if closed {
            action is Release
        } else {
            fails_with(action, "microphone capture read failed: "@ + reason@)
        },
        (MicState::Sending { pts }, MicEvent::Done) => state == (MicState::Receiving { pts })
            && ready == pump.ready && action is Receive,
        (MicState::Sending { pts }, MicEvent::Nothing) => state is Reading && ready == pump.ready
            && action is DropAndRead,
        (MicState::Receiving { pts }, MicEvent::Nothing) => state is Reading && ready == pump.ready
            && action is DropAndRead,
        (MicState::Receiving { pts }, MicEvent::Done) => state == (MicState::Normalizing { pts })
            && ready == pump.ready && action is Normalize,
        (MicState::Normalizing { pts }, MicEvent::Failed { reason }) => state is Over && ready
            == pump.ready && fails_with(
            action,
            "microphone frame layout normalization failed: "@ + reason@,
        ),
        (MicState::Normalizing { pts }, MicEvent::Done) => ready == pump.ready && if pump.ready {
            state == (MicState::Converting { pts, again: false }) && action is Convert
        } else {
            state == (MicState::Preparing { pts }) && action is Setup
        },
        (MicState::Preparing { pts }, MicEvent::Failed { reason }) => state is Over && ready
            == pump.ready && fails_with(action, "microphone resampler setup failed: "@ + reason@),
        (MicState::Preparing { pts }, MicEvent::Done) => state == (MicState::Converting {
            pts,
            again: false,
        }) && ready && action is Convert,
        (MicState::Converting { pts, again }, MicEvent::Failed { reason }) => ready == pump.ready
            && if again {
            state is Over && fails_with(
                action,
                "microphone sample conversion failed: "@ + reason@,
            )
        } else {
            state == (MicState::Repairing { pts, reason }) && action is Setup
        },
        (MicState::Repairing { pts, reason }, MicEvent::Failed { reason: _ }) => state is Over
            && ready == pump.ready && fails_with(
            action,
            "microphone sample conversion failed: "@ + reason@,
        ),
        (MicState::Repairing { pts, reason }, MicEvent::Done) => state == (MicState::Converting {
            pts,
            again: true,
        }) && ready == pump.ready && action is Convert,
        (MicState::Converting { pts, again }, MicEvent::Samples { samples, has_data }) => {
            let bytes = samples * pump.channels * 2;
            ready == pump.ready && if !has_data || bytes == 0 {
                state == (MicState::Receiving { pts }) && action is Receive
            } else {
                state == (MicState::Pushing { pts }) && action == (MicAction::Push {
                    bytes: bytes as u64,
                    pts_us: mic_time(pts, pump.num, pump.den) as u64,
                })
            }
        },
        (MicState::Pushing { pts }, MicEvent::Taken) => state == (MicState::Receiving { pts })
            && ready == pump.ready && action is Receive,
        (MicState::Pushing { pts }, MicEvent::Refused) => state is Over && ready == pump.ready
            && action is Release,
        _ => state == pump.state && ready == pump.ready && action is Ignore,
    }
}

/// A message and its reason.
fn said(what: &str, reason: &str) -> (r: String)
    ensures
        r@ == what@ + reason@,
{
    let mut t = owned(what);
    add_text(&mut t, reason);
    t
}

impl MicPump {
    /// A loop that waits for its first packet.
    pub fn new(channels: u64, num: i32, den: i32) -> (r: Self)
        ensures
            r == (MicPump { state: MicState::Reading, ready: false, channels, num, den }),
    {
        MicPump { state: MicState::Reading, ready: false, channels, num, den }
    }

    /// One step of the loop.
    pub fn step(&mut self, event: MicEvent, closed: bool) -> (action: MicAction)
        requires
            event matches MicEvent::Samples { samples, .. } ==> samples * old(self).channels * 2
                <= u64::MAX,
        ensures
            final(self).channels == old(self).channels,
            final(self).num == old(self).num,
            final(self).den == old(self).den,
            mic_step(*old(self), event, closed, final(self).state, final(self).ready, action),
    {
        let mut state = MicState::Over;
        core::mem::swap(&mut self.state, &mut state);
        let (next, action) = match (state, event) {
            (MicState::Reading, MicEvent::ReadAgain) => (
                MicState::Reading,
                MicAction::SleepAndRead,
            ),
            (MicState::Reading, MicEvent::ReadOther) => (MicState::Reading, MicAction::DropAndRead),
            (MicState::Reading, MicEvent::ReadPacket { pts }) => (
                MicState::Sending { pts },
                MicAction::Send,
            ),
            (MicState::Reading, MicEvent::Failed { reason }) => if closed {
                (MicState::Over, MicAction::Release)
            } else {
                (
                    MicState::Over,
                    MicAction::FailAndRelease {
                        message: said("microphone capture read failed: ", &reason),
                    },
                )
            },
            (MicState::Sending { pts }, MicEvent::Done) => (
                MicState::Receiving { pts },
                MicAction::Receive,
            ),
            (MicState::Sending { pts }, MicEvent::Nothing) => (
                MicState::Reading,
                MicAction::DropAndRead,
            ),
            (MicState::Receiving { pts }, MicEvent::Nothing) => (
                MicState::Reading,
                MicAction::DropAndRead,
            ),
            (MicState::Receiving { pts }, MicEvent::Done) => (
                MicState::Normalizing { pts },
                MicAction::Normalize,
            ),
            (MicState::Normalizing { pts }, MicEvent::Failed { reason }) => (
                MicState::Over,
                MicAction::FailAndRelease {
                    message: said("microphone frame layout normalization failed: ", &reason),
                },
            ),
            (MicState::Normalizing { pts }, MicEvent::Done) => if self.ready {
                (MicState::Converting { pts, again: false }, MicAction::Convert)
            } else {
                (MicState::Preparing { pts }, MicAction::Setup)
            },
            (MicState::Preparing { pts }, MicEvent::Failed { reason }) => (
                MicState::Over,
                MicAction::FailAndRelease {
                    message: said("microphone resampler setup failed: ", &reason),
                },
            ),
            (MicState::Preparing { pts }, MicEvent::Done) => {
                self.ready = true;
                (MicState::Converting { pts, again: false }, MicAction::Convert)
            },
            (MicState::Converting { pts, again }, MicEvent::Failed { reason }) => if again {
                (
                    MicState::Over,
                    MicAction::FailAndRelease {
                        message: said("microphone sample conversion failed: ", &reason),
                    },
                )
            } else {
                (MicState::Repairing { pts, reason }, MicAction::Setup)
            },
            (MicState::Repairing { pts, reason }, MicEvent::Failed { reason: _ }) => (
                MicState::Over,
                MicAction::FailAndRelease {
                    message: said("microphone sample conversion failed: ", &reason),
                },
            ),
            (MicState::Repairing { pts, reason }, MicEvent::Done) => (
                MicState::Converting { pts, again: true },
                MicAction::Convert,
            ),
            (MicState::Converting { pts, again }, MicEvent::Samples { samples, has_data }) => {
                assert(samples * self.channels <= samples * self.channels * 2) by (nonlinear_arith);
                let bytes: u64 = samples * self.channels * 2;
                if !has_data || bytes == 0 {
                    (MicState::Receiving { pts }, MicAction::Receive)
                } else {
                    let pts_us: u64 = if pts >= 0 {
                        let den: i32 = if self.den < 1 {
                            1
                        } else {
                            self.den
                        };
                        ticks_to_us(pts, self.num, den)
                    } else {
                        0
                    };
                    (MicState::Pushing { pts }, MicAction::Push { bytes, pts_us })
                }
            },
            (MicState::Pushing { pts }, MicEvent::Taken) => (
                MicState::Receiving { pts },
                MicAction::Receive,
            ),
            (MicState::Pushing { pts }, MicEvent::Refused) => (MicState::Over, MicAction::Release),
            (state, _) => (state, MicAction::Ignore),
        };
        self.state = next;
        action
    }
}

/// Law: a device that fails never looks like a recording that ended by itself.
/// Where a step fails for good, the feed fails with a message, unless it was
/// closed before; and a loop that is over stays over.
pub proof fn law_device_failure_fails_the_feed(
    pump: MicPump,
    event: MicEvent,
    closed: bool,
    state: MicState,
    ready: bool,
    action: MicAction,
)
    requires
        mic_step(pump, event, closed, state, ready, action),
    ensures
        pump.state is Over ==> state is Over && action is Ignore,
        event is Failed && state is Over && !(pump.state is Over) && !closed
            ==> action is FailAndRelease,
        action is FailAndRelease ==> state is Over,
        action is Release ==> state is Over,
{
}

/// Law: a parameter of the microphone sets its own field and nothing else; the
/// last value counts. One that is not known, or is no count, is refused, and so
/// is everything behind it.
pub proof fn law_mic_param_sets_its_own_field(
    entries: Seq<(String, ParamValue)>,
    entry: (String, ParamValue),
)
    ensures
        mic_params(Seq::empty()) == Ok::<MicFormat, Seq<char>>(
            MicFormat { sample_rate: 48000, channels: 1 },
        ),
        mic_params(entries) is Err ==> mic_params(entries.push(entry)) == mic_params(entries),
        mic_params(entries) matches Ok(f) ==> {
            let got = mic_params(entries.push(entry));
            &&& entry.0@ == "sample_rate"@ ==> match entry.1 {
                ParamValue::Count(n) => got == Ok::<MicFormat, Seq<char>>(
                    MicFormat { sample_rate: n, ..f },
                ),
                ParamValue::Other(_) => got is Err,
            }
            &&& entry.0@ == "channels"@ ==> match entry.1 {
                ParamValue::Count(n) => got == Ok::<MicFormat, Seq<char>>(
                    MicFormat { channels: n, ..f },
                ),
                ParamValue::Other(_) => got is Err,
            }
            &&& entry.0@ != "sample_rate"@ && entry.0@ != "channels"@ ==> got is Err
        },
{
    reveal_strlit("sample_rate");
    reveal_strlit("channels");
    assert("sample_rate"@.len() != "channels"@.len());
    assert(entries.push(entry).drop_last() =~= entries);
    assert(entries.push(entry).last() == entry);
}

/// Law: the time of an item is that of its packet in whole microseconds, as long
/// as a counter holds it; a packet without a time is at the start.
pub proof fn law_mic_time_is_in_microseconds(pts: i64, num: i32, den: i32)
    requires
        num >= 0,
        den >= 1,
        pts * num * 1_000_000 < 0x1_0000_0000_0000_0000 * den,
    ensures
        pts < 0 ==> mic_time(pts, num, den) == 0,
        pts >= 0 ==> {
            let t = mic_time(pts, num, den);
            t * den <= pts * num * 1_000_000 < (t + 1) * den
        },
{
    if pts >= 0 {
        let a = pts * num * 1_000_000;
        let d = den as int;
        assert(a >= 0) by (nonlinear_arith)
            requires
                a == pts * num * 1_000_000,
                pts >= 0,
                num >= 0,
        ;
        let q = a / d;
        assert(q * d <= a < (q + 1) * d && 0 <= q < 0x1_0000_0000_0000_0000) by (nonlinear_arith)
            requires
                q == a / d,
                d >= 1,
                0 <= a < 0x1_0000_0000_0000_0000 * d,
        ;
    }
}

/// The time of the packet that the loop is at work on.
pub open spec fn packet_time(state: MicState) -> Option<i64> {
    match state {
        MicState::Reading => None,
        MicState::Sending { pts } => Some(pts),
        MicState::Receiving { pts } => Some(pts),
        MicState::Normalizing { pts } => Some(pts),
        MicState::Preparing { pts } => Some(pts),
        MicState::Converting { pts, .. } => Some(pts),
        MicState::Repairing { pts, .. } => Some(pts),
        MicState::Pushing { pts } => Some(pts),
        MicState::Over => None,
    }
}

/// Law: what is pushed has the time of the packet that was read, and two bytes
/// for each sample of each channel; nothing is pushed without samples. The
/// packet's time stays until the next packet is read.
pub proof fn law_mic_pushes_samples_with_packet_time(
    pump: MicPump,
    event: MicEvent,
    closed: bool,
    state: MicState,
    ready: bool,
    action: MicAction,
)
    requires
        mic_step(pump, event, closed, state, ready, action),
        event matches MicEvent::Samples { samples, .. } ==> samples * pump.channels * 2 <= u64::MAX,
    ensures
        action matches MicAction::Push { bytes, pts_us } ==> {
            &&& packet_time(pump.state) is Some
            &&& event matches MicEvent::Samples { samples, has_data }
            &&& has_data
            &&& bytes == samples * pump.channels * 2
            &&& bytes > 0
            &&& packet_time(pump.state)->0 < 0 ==> pts_us == 0
            &&& pts_us == mic_time(packet_time(pump.state)->0, pump.num, pump.den)
        },
        packet_time(pump.state) is Some && packet_time(state) is Some ==> packet_time(state)
            == packet_time(pump.state),
        packet_time(pump.state) is None && packet_time(state) is Some ==> {
            &&& event matches MicEvent::ReadPacket { pts }
            &&& packet_time(state) == Some(pts)
            &&& action is Send
        },
{
}

/// Law: a conversion that fails is tried once more after the resampler was set up
/// anew, and then never again; the feed is told of the first failure where the
/// new setup fails, of the second where the conversion does.
pub proof fn law_mic_conversion_is_tried_twice(
    pump: MicPump,
    reason: String,
    closed: bool,
    state: MicState,
    ready: bool,
    action: MicAction,
)
    requires
        mic_step(pump, MicEvent::Failed { reason }, closed, state, ready, action),
    ensures
        pump.state matches MicState::Converting { pts, again } ==> {
            &&& !again ==> state == (MicState::Repairing { pts, reason }) && action is Setup
            &&& again ==> state is Over && (action matches MicAction::FailAndRelease { message }
                && message@ == "microphone sample conversion failed: "@ + reason@)
        },
        pump.state matches MicState::Repairing { pts, reason: first } ==> {
            &&& state is Over
            &&& action matches MicAction::FailAndRelease { message }
            &&& message@ == "microphone sample conversion failed: "@ + first@
        },
{
}

/// Law: the loop waits for the outcome of what it does next. Every frame of a
/// packet is received before the next packet is read, it sleeps only where no
/// packet is there yet, and nothing is converted before the resampler is set up,
/// which is done first for the first frame only.
pub proof fn law_mic_waits_for_what_it_does(
    pump: MicPump,
    event: MicEvent,
    closed: bool,
    state: MicState,
    ready: bool,
    action: MicAction,
)
    requires
        mic_step(pump, event, closed, state, ready, action),
    ensures
        action is Ignore ==> state == pump.state && ready == pump.ready,
        action is SleepAndRead || action is DropAndRead ==> state is Reading,
        action is Send ==> state is Sending,
        action is Receive ==> state is Receiving,
        action is Normalize ==> state is Normalizing,
        action is Setup ==> state is Preparing || state is Repairing,
        action is Convert ==> state is Converting,
        action is Push ==> state is Pushing,
        action is Release || action is FailAndRelease ==> state is Over,
        action is SleepAndRead <==> pump.state is Reading && event is ReadAgain,
        action is DropAndRead <==> {
            ||| pump.state is Reading && event is ReadOther
            ||| (pump.state is Sending || pump.state is Receiving) && event is Nothing
        },
        action is Release <==> {
            ||| pump.state is Pushing && event is Refused
            ||| pump.state is Reading && event is Failed && closed
        },
        pump.state is Pushing && event is Taken ==> action is Receive,
        pump.state is Receiving && event is Done ==> action is Normalize,
        pump.state is Normalizing && event is Done ==> (action is Convert <==> pump.ready),
        state is Preparing && action is Setup ==> !pump.ready,
        pump.ready ==> ready,
        ready && !pump.ready ==> pump.state is Preparing && event is Done,
        action is FailAndRelease ==> event is Failed,
{
}

} // verus!
