//! The webcam: its parameters, how it is opened, and the decisions of the loop
//! that reads packets, decodes and scales frames, encodes them as PNG, and
//! hands them to the feed.

use crate::bifaci::live_feed::{
    meta_view, LiveFeedItem, LiveFeedSelector, MetaValue, MetaView, ParamValue, RuntimeError,
};
use crate::capture::device::{low_bits, quotient, ticks_to_us, Platform};
use crate::text::{
    add_text, decimal, decimal_text, owned, same_text, signed_decimal, signed_decimal_text, texts,
};
use image::codecs::png::PngEncoder;
use image::{ExtendedColorType, ImageEncoder};
use vstd::prelude::*;

verus! {

broadcast use vstd::string::group_string_axioms;

/// What the selector asks for; `None` leaves it to the device.
#[derive(Debug, Clone, Copy, PartialEq, Eq, Structural)]
pub struct CamFormat {
    pub width: Option<u64>,
    pub height: Option<u64>,
    pub framerate: Option<u64>,
}

/// What the parameters ask for, or the message of the first that is wrong: one
/// that is not known, or is no count.
pub open spec fn cam_params(entries: Seq<(String, ParamValue)>) -> Result<CamFormat, Seq<char>>
    decreases entries.len(),
{
    if entries.len() == 0 {
        Ok(CamFormat { width: None, height: None, framerate: None })
    } else {
        match cam_params(entries.drop_last()) {
            Err(e) => Err(e),
            Ok(f) => {
                let key = entries.last().0@;
                if key == "width"@ || key == "height"@ || key == "framerate"@ {
                    match entries.last().1 {
                        ParamValue::Other(json) => Err(
                            "webcam param '"@ + key + "' must be a positive integer, got "@ + json@,
                        ),
                        ParamValue::Count(n) => if key == "width"@ {
                            Ok(CamFormat { width: Some(n), ..f })
                        } else if key == "height"@ {
                            Ok(CamFormat { height: Some(n), ..f })
                        } else {
                            Ok(CamFormat { framerate: Some(n), ..f })
                        },
                    }
                } else {
                    Err(
                        "webcam capture knows no param '"@ + key
                            + "' — known params: width, height, framerate"@,
                    )
                }
            },
        }
    }
}

/// Once a parameter was wrong, the message stays.
proof fn lemma_params_stuck(entries: Seq<(String, ParamValue)>, n: int)
    requires
        0 <= n <= entries.len(),
        cam_params(entries.subrange(0, n)) is Err,
    ensures
        cam_params(entries) == cam_params(entries.subrange(0, n)),
    decreases entries.len() - n,
{
    if n == entries.len() {
        assert(entries.subrange(0, n) =~= entries);
    } else {
        assert(entries.subrange(0, n + 1).drop_last() =~= entries.subrange(0, n));
        lemma_params_stuck(entries, n + 1);
    }
}

/// What the selector asks for; the width and the height are given together.
pub fn capture_format(selector: &LiveFeedSelector) -> (r: Result<CamFormat, RuntimeError>)
    ensures
        match cam_params(selector.params.entries@) {
            Err(text) => r is Err && r->Err_0.message() == text,
            Ok(f) => if (f.width is Some) != (f.height is Some) {
                r is Err && r->Err_0.message() == "webcam width and height must be given together"@
            } else {
                r == Ok::<CamFormat, RuntimeError>(f)
            },
        },
{
    let ghost all = selector.params.entries@;
    let mut f = CamFormat { width: None, height: None, framerate: None };
    let mut i: usize = 0;
    assert(all.subrange(0, 0) =~= Seq::<(String, ParamValue)>::empty());
    while i < selector.params.entries.len()
        invariant
            i <= all.len(),
            all == selector.params.entries@,
            cam_params(all.subrange(0, i as int)) == Ok::<CamFormat, Seq<char>>(f),
        decreases all.len() - i,
    {
        assert(all.subrange(0, i + 1).drop_last() =~= all.subrange(0, i as int));
        let entry = &selector.params.entries[i];
        let is_width = same_text(&entry.0, "width");
        let is_height = same_text(&entry.0, "height");
        if is_width || is_height || same_text(&entry.0, "framerate") {
            match &entry.1 {
                ParamValue::Other(json) => {
                    let mut t = owned("webcam param '");
                    add_text(&mut t, &entry.0);
                    add_text(&mut t, "' must be a positive integer, got ");
                    add_text(&mut t, json);
                    proof {
                        lemma_params_stuck(all, i + 1);
                    }
                    return Err(RuntimeError::Handler(t));
                },
                ParamValue::Count(n) => {
                    if is_width {
                        f.width = Some(*n);
                    } else if is_height {
                        f.height = Some(*n);
                    } else {
                        f.framerate = Some(*n);
                    }
                },
            }
        } else {
            let mut t = owned("webcam capture knows no param '");
            add_text(&mut t, &entry.0);
            add_text(&mut t, "' — known params: width, height, framerate");
            proof {
                lemma_params_stuck(all, i + 1);
            }
            return Err(RuntimeError::Handler(t));
        }
        i = i + 1;
    }
    assert(all.subrange(0, all.len() as int) =~= all);
    if f.width.is_some() != f.height.is_some() {
        return Err(
            RuntimeError::Handler(owned("webcam width and height must be given together")),
        );
    }
    Ok(f)
}

/// The input format of the platform's cameras; empty where there is none.
pub fn input_format_name(platform: Platform) -> (r: &'static str)
    ensures
        r@ == (match platform {
            Platform::Linux => "v4l2"@,
            Platform::MacOs => "avfoundation"@,
            Platform::Other => ""@,
        }),
{
    match platform {
        Platform::Linux => "v4l2",
        Platform::MacOs => "avfoundation",
        Platform::Other => "",
    }
}

/// The device that is used where the selector names none.
pub fn default_device(platform: Platform) -> (r: &'static str)
    ensures
        r@ == (match platform {
            Platform::Linux => "/dev/video0"@,
            Platform::MacOs => "0"@,
            Platform::Other => ""@,
        }),
{
    match platform {
        Platform::Linux => "/dev/video0",
        Platform::MacOs => "0",
        Platform::Other => "",
    }
}

/// How a webcam is opened.
#[derive(Debug)]
pub struct CamPlan {
    pub format_name: &'static str,
    pub device: String,
    pub format: CamFormat,
}

/// How the webcam that a selector names is opened. Wrong parameters, and a
/// platform without cameras, are errors.
pub fn open(selector: &LiveFeedSelector, platform: Platform) -> (r: Result<CamPlan, RuntimeError>)
    ensures
        match cam_params(selector.params.entries@) {
            Err(text) => r is Err && r->Err_0.message() == text,
            Ok(f) => if (f.width is Some) != (f.height is Some) {
                r is Err && r->Err_0.message() == "webcam width and height must be given together"@
            } else if platform == Platform::Other {
                r is Err && r->Err_0.message()
                    == "no webcam capture backend is built for this platform"@
            } else {
                &&& r is Ok
                &&& r->Ok_0.format == f
                &&& r->Ok_0.format_name@ == (if platform == Platform::Linux {
                    "v4l2"@
                } else {
                    "avfoundation"@
                })
                &&& r->Ok_0.device@ == (match selector.device {
                    Some(d) => d@,
                    None => if platform == Platform::Linux {
                        "/dev/video0"@
                    } else {
                        "0"@
                    },
                })
            },
        },
{
    let format = match capture_format(selector) {
        Ok(f) => f,
        Err(e) => {
            return Err(e);
        },
    };
    let format_name = input_format_name(platform);
    if platform == Platform::Other {
        return Err(
            RuntimeError::Handler(owned("no webcam capture backend is built for this platform")),
        );
    }
    let device = match &selector.device {
        Some(d) => d.clone(),
        None => owned(default_device(platform)),
    };
    Ok(CamPlan { format_name, device, format })
}

/// The options that the device is opened with: the size where it is asked for,
/// then the frame rate where it is asked for.
pub open spec fn options_of(f: CamFormat) -> Seq<(Seq<char>, Seq<char>)> {
    let size = match (f.width, f.height) {
        (Some(w), Some(h)) => seq![
            ("video_size"@, decimal(w as nat) + "x"@ + decimal(h as nat)),
        ],
        _ => Seq::empty(),
    };
    match f.framerate {
        Some(rate) => size.push(("framerate"@, decimal(rate as nat))),
        None => size,
    }
}

/// Pairs of texts in the model.
pub open spec fn pair_texts(v: Seq<(String, String)>) -> Seq<(Seq<char>, Seq<char>)> {
    Seq::new(v.len(), |i: int| (v[i].0@, v[i].1@))
}

/// The options that the device is opened with, in the order in which they are
/// set.
pub fn device_options(format: &CamFormat) -> (r: Vec<(String, String)>)
    ensures
        pair_texts(r@) == options_of(*format),
{
    let mut out: Vec<(String, String)> = Vec::new();
    match (format.width, format.height) {
        (Some(w), Some(h)) => {
            let mut size = decimal_text(w);
            add_text(&mut size, "x");
            add_text(&mut size, &decimal_text(h));
            out.push((owned("video_size"), size));
        },
        _ => {},
    }
    match format.framerate {
        Some(rate) => {
            out.push((owned("framerate"), decimal_text(rate)));
        },
        None => {},
    }
    assert(pair_texts(out@) =~= options_of(*format));
    out
}

/// The metadata of the stream.
pub fn stream_meta(width: u32, height: u32) -> (r: Vec<(String, MetaValue)>)
    ensures
        meta_view(r@) == seq![
            ("feed"@, MetaView::Text("webcam"@)),
            ("width"@, MetaView::Integer(width as u64)),
            ("height"@, MetaView::Integer(height as u64)),
            ("frame_format"@, MetaView::Text("png"@)),
        ],
{
    let mut out: Vec<(String, MetaValue)> = Vec::new();
    out.push((owned("feed"), MetaValue::Text(owned("webcam"))));
    out.push((owned("width"), MetaValue::Integer(width as u64)));
    out.push((owned("height"), MetaValue::Integer(height as u64)));
    out.push((owned("frame_format"), MetaValue::Text(owned("png"))));
    assert(meta_view(out@) =~= seq![
        ("feed"@, MetaView::Text("webcam"@)),
        ("width"@, MetaView::Integer(width as u64)),
        ("height"@, MetaView::Integer(height as u64)),
        ("frame_format"@, MetaView::Text("png"@)),
    ]);
    out
}

// ---------------------------------------------------------------------------
// Frames
// ---------------------------------------------------------------------------

/// The PNG of an RGBA image, or why it cannot be encoded.
pub uninterp spec fn png_of(width: u32, height: u32, rgba: Seq<u8>) -> Result<Seq<u8>, Seq<char>>;

/// `PngEncoder::write_image` of the `image` crate with 8-bit RGBA: what is
/// written is a function of the size and the pixels alone. It panics where the
/// pixels do not fill the size.
#[verifier::external_body]
fn write_png(width: u32, height: u32, rgba: &[u8]) -> (r: Result<Vec<u8>, String>)
    requires
        rgba@.len() == width * height * 4,
    ensures
        match r {
            Ok(png) => png_of(width, height, rgba@) == Ok::<Seq<u8>, Seq<char>>(png@),
            Err(e) => png_of(width, height, rgba@) == Err::<Seq<u8>, Seq<char>>(e@),
        },
{
    let mut out = Vec::new();
    let written = PngEncoder::new(&mut out).write_image(
        rgba,
        width,
        height,
        ExtendedColorType::Rgba8,
    );
    match written {
        Ok(()) => Ok(out),
        Err(e) => Err(e.to_string()),
    }
}

/// The PNG of an RGBA image, or why it cannot be encoded.
pub fn encode_rgba_png(width: u32, height: u32, rgba: &[u8]) -> (r: Result<Vec<u8>, String>)
    requires
        rgba@.len() == width * height * 4,
    ensures
        match r {
            Ok(png) => png_of(width, height, rgba@) == Ok::<Seq<u8>, Seq<char>>(png@),
            Err(e) => png_of(width, height, rgba@) == Err::<Seq<u8>, Seq<char>>(e@),
        },
{
    write_png(width, height, rgba)
}

/// The tick that stands for no time.
pub const NO_TIME: i64 = i64::MIN;

/// The time of a frame: 0 where it has none, or where the clock has no rate.
pub open spec fn cam_time(pts: i64, num: i32, den: i32) -> int {
    if pts != NO_TIME && num > 0 && den > 0 {
        low_bits(quotient(pts * num * 1_000_000, den as int))
    } else {
        0
    }
}

/// The item of an encoded frame.
pub fn frame_item(png: Vec<u8>, pts: i64, num: i32, den: i32, capture_ts_us: u64) -> (r:
    LiveFeedItem)
    ensures
        r.payload == png,
        r.pts_us == cam_time(pts, num, den),
        r.capture_ts_us == capture_ts_us,
{
    let pts_us: u64 = if pts != NO_TIME && num > 0 && den > 0 {
        ticks_to_us(pts, num, den)
    } else {
        0
    };
    LiveFeedItem { payload: png, pts_us, capture_ts_us }
}

// ---------------------------------------------------------------------------
// The loop
// ---------------------------------------------------------------------------

/// The size and pixel format of a frame.
#[derive(Debug, Clone, Copy, PartialEq, Eq, Structural)]
pub struct FrameShape {
    pub width: i32,
    pub height: i32,
    pub pix_fmt: i32,
}

/// What the loop waits for.
#[derive(Debug)]
pub enum CamState {
    /// A packet from the device.
    Reading,
    /// The decoder's word on the packet.
    Sending,
    /// A frame from the decoder.
    Receiving,
    /// A scaler for frames of this shape.
    Preparing { shape: FrameShape },
    /// The rows of a scaled frame.
    Scaling { shape: FrameShape },
    /// The encoded frame.
    Encoding,
    /// The feed's word on an item.
    Pushing,
    /// Nothing: the device is released.
    Over,
}

/// What happened.
#[derive(Debug)]
pub enum CamEvent {
    /// No packet is there yet.
    ReadAgain,
    /// A packet of another stream.
    ReadOther,
    /// A packet of the captured stream.
    ReadPacket,
    /// There is no frame, or the packet was not taken.
    Nothing,
    /// A frame of this shape.
    Frame { shape: FrameShape },
    /// It worked.
    Done,
    /// It failed, for this reason.
    Failed { reason: String },
    /// This many rows were scaled.
    Rows { rows: i32 },
    /// The feed took the item and wants more.
    Taken,
    /// The feed wants no more.
    Refused,
}

/// What is done next.
#[derive(Debug)]
pub enum CamAction {
    /// Reads a packet, after a short sleep.
    SleepAndRead,
    /// Lets the packet go and reads another.
    DropAndRead,
    /// Sends the packet to the decoder.
    Send,
    /// Receives a frame, after letting go of the one before.
    Receive,
    /// Makes a scaler for frames of this shape, and room for their pixels.
    MakeScaler { shape: FrameShape },
    /// Scales the frame.
    Scale,
    /// Encodes the frame.
    Encode,
    /// Pushes the encoded frame.
    Push,
    /// Fails the feed with this message and releases the device.
    FailAndRelease { message: String },
    /// Releases the device.
    Release,
    /// The event does not fit; nothing is done.
    Ignore,
}

/// The loop: what it waits for, and the shape that its scaler is made for.
#[derive(Debug)]
pub struct CamPump {
    pub state: CamState,
    pub scaler: Option<FrameShape>,
}

/// The action fails the feed with this message.
pub open spec fn fails_with(action: CamAction, message: Seq<char>) -> bool {
    action matches CamAction::FailAndRelease { message: m } && m@ == message
}

/// The message for a pixel format that cannot be scaled.
pub open spec fn no_scaler_text(shape: FrameShape) -> Seq<char> {
    "webcam pixel format "@ + signed_decimal(shape.pix_fmt as int) + " ("@ + signed_decimal(
        shape.width as int,
    ) + "x"@ + signed_decimal(shape.height as int) + ") has no swscale conversion to RGBA"@
}

/// The message for a frame that was not scaled as a whole.
pub open spec fn short_scale_text(rows: i32, shape: FrameShape) -> Seq<char> {
    "webcam frame scale produced "@ + signed_decimal(rows as int) + " of "@ + signed_decimal(
        shape.height as int,
    ) + " rows — swscale failed mid-frame"@
}

/// One step of the loop: what it waits for then, the scaler that it has, and
/// what is done. `closed` says whether the feed is closed.
pub open spec fn cam_step(
    pump: CamPump,
    event: CamEvent,
    closed: bool,
    state: CamState,
    scaler: Option<FrameShape>,
    action: CamAction,
) -> bool {
    match (pump.state, event) {
        (CamState::Reading, CamEvent::ReadAgain) => state is Reading && scaler == pump.scaler
            && action is SleepAndRead,
        (CamState::Reading, CamEvent::ReadOther) => state is Reading && scaler == pump.scaler
            && action is DropAndRead,
        (CamState::Reading, CamEvent::ReadPacket) => state is Sending && scaler == pump.scaler
            && action is Send,
        (CamState::Reading, CamEvent::Failed { reason }) => state is Over && scaler == pump.scaler
            && if closed {
            action is Release
        } else {
            fails_with(action, "webcam capture read failed: "@ + reason@)
        },
        (CamState::Sending, CamEvent::Done) => state is Receiving && scaler == pump.scaler
            && action is Receive,
        (CamState::Sending, CamEvent::Nothing) => state is Reading && scaler == pump.scaler
            && action is DropAndRead,
        (CamState::Receiving, CamEvent::Nothing) => state is Reading && scaler == pump.scaler
            && action is DropAndRead,
        (CamState::Receiving, CamEvent::Frame { shape }) => scaler == pump.scaler && if shape.width
            <= 0 || shape.height <= 0 {
            state is Receiving && action is Receive
        } else if pump.scaler == Some(shape) {
            state == (CamState::Scaling { shape }) && action is Scale
        } else {
            state == (CamState::Preparing { shape }) && action == (CamAction::MakeScaler { shape })
        },
        (CamState::Preparing { shape }, CamEvent::Failed { reason: _ }) => state is Over
            && scaler is None && fails_with(action, no_scaler_text(shape)),
        (CamState::Preparing { shape }, CamEvent::Done) => state == (CamState::Scaling { shape })
            && scaler == Some(shape) && action is Scale,
        (CamState::Scaling { shape }, CamEvent::Rows { rows }) => scaler == pump.scaler && if rows
            != shape.height {
            state is Over && fails_with(action, short_scale_text(rows, shape))
        } else {
            state is Encoding && action is Encode
        },
        (CamState::Encoding, CamEvent::Failed { reason }) => state is Over && scaler == pump.scaler
            && fails_with(action, "webcam frame PNG encode failed: "@ + reason@),
        (CamState::Encoding, CamEvent::Done) => state is Pushing && scaler == pump.scaler
            && action is Push,
        (CamState::Pushing, CamEvent::Taken) => state is Receiving && scaler == pump.scaler
            && action is Receive,
        (CamState::Pushing, CamEvent::Refused) => state is Over && scaler == pump.scaler
            && action is Release,
        _ => state == pump.state && scaler == pump.scaler && action is Ignore,
    }
}

/// A message and its reason.
fn said(what: &str, reason: &str) -> (r: String)
    ensures
        r@ == what@ + reason@,
{
    let mut t = owned(what);
    add_text(&mut t, reason);
    t
}

/// The message for a pixel format that cannot be scaled.
fn no_scaler(shape: FrameShape) -> (r: String)
    ensures
        r@ == no_scaler_text(shape),
{
    let mut t = owned("webcam pixel format ");
    add_text(&mut t, &signed_decimal_text(shape.pix_fmt as i64));
    add_text(&mut t, " (");
    add_text(&mut t, &signed_decimal_text(shape.width as i64));
    add_text(&mut t, "x");
    add_text(&mut t, &signed_decimal_text(shape.height as i64));
    add_text(&mut t, ") has no swscale conversion to RGBA");
    t
}

/// The message for a frame that was not scaled as a whole.
fn short_scale(rows: i32, shape: FrameShape) -> (r: String)
    ensures
        r@ == short_scale_text(rows, shape),
{
    let mut t = owned("webcam frame scale produced ");
    add_text(&mut t, &signed_decimal_text(rows as i64));
    add_text(&mut t, " of ");
    add_text(&mut t, &signed_decimal_text(shape.height as i64));
    add_text(&mut t, " rows — swscale failed mid-frame");
    t
}

impl CamPump {
    /// A loop that waits for its first packet.
    pub fn new() -> (r: Self)
        ensures
            r == (CamPump { state: CamState::Reading, scaler: None }),
    {
        CamPump { state: CamState::Reading, scaler: None }
    }

    /// One step of the loop.
    pub fn step(&mut self, event: CamEvent, closed: bool) -> (action: CamAction)
        ensures
            cam_step(*old(self), event, closed, final(self).state, final(self).scaler, action),
    {
        let mut state = CamState::Over;
        core::mem::swap(&mut self.state, &mut state);
        let (next, action) = match (state, event) {
            (CamState::Reading, CamEvent::ReadAgain) => (
                CamState::Reading,
                CamAction::SleepAndRead,
            ),
            (CamState::Reading, CamEvent::ReadOther) => (CamState::Reading, CamAction::DropAndRead),
            (CamState::Reading, CamEvent::ReadPacket) => (CamState::Sending, CamAction::Send),
            (CamState::Reading, CamEvent::Failed { reason }) => if closed {
                (CamState::Over, CamAction::Release)
            } else {
                (
                    CamState::Over,
                    CamAction::FailAndRelease {
                        message: said("webcam capture read failed: ", &reason),
                    },
                )
            },
            (CamState::Sending, CamEvent::Done) => (CamState::Receiving, CamAction::Receive),
            (CamState::Sending, CamEvent::Nothing) => (CamState::Reading, CamAction::DropAndRead),
            (CamState::Receiving, CamEvent::Nothing) => (CamState::Reading, CamAction::DropAndRead),
            (CamState::Receiving, CamEvent::Frame { shape }) => {
                let have = match self.scaler {
                    Some(s) => s == shape,
                    None => false,
                };
                if shape.width <= 0 || shape.height <= 0 {
                    (CamState::Receiving, CamAction::Receive)
                } else if have {
                    (CamState::Scaling { shape }, CamAction::Scale)
                } else {
                    (CamState::Preparing { shape }, CamAction::MakeScaler { shape })
                }
            },
            (CamState::Preparing { shape }, CamEvent::Failed { reason: _ }) => {
                self.scaler = None;
                (CamState::Over, CamAction::FailAndRelease { message: no_scaler(shape) })
            },
            (CamState::Preparing { shape }, CamEvent::Done) => {
                self.scaler = Some(shape);
                (CamState::Scaling { shape }, CamAction::Scale)
            },
            (CamState::Scaling { shape }, CamEvent::Rows { rows }) => if rows != shape.height {
                (CamState::Over, CamAction::FailAndRelease { message: short_scale(rows, shape) })
            } else {
                (CamState::Encoding, CamAction::Encode)
            },
            (CamState::Encoding, CamEvent::Failed { reason }) => (
                CamState::Over,
                CamAction::FailAndRelease {
                    message: said("webcam frame PNG encode failed: ", &reason),
                },
            ),
            (CamState::Encoding, CamEvent::Done) => (CamState::Pushing, CamAction::Push),
            (CamState::Pushing, CamEvent::Taken) => (CamState::Receiving, CamAction::Receive),
            (CamState::Pushing, CamEvent::Refused) => (CamState::Over, CamAction::Release),
            (state, _) => (state, CamAction::Ignore),
        };
        self.state = next;
        action
    }
}

/// Law: a device that fails never looks like a capture that ended by itself.
/// Where a step fails for good, the feed fails with a message, unless it was
/// closed before; and a loop that is over stays over.
pub proof fn law_device_failure_fails_the_feed(
    pump: CamPump,
    event: CamEvent,
    closed: bool,
    state: CamState,
    scaler: Option<FrameShape>,
    action: CamAction,
)
    requires
        cam_step(pump, event, closed, state, scaler, action),
    ensures
        pump.state is Over ==> state is Over && action is Ignore,
        event is Failed && state is Over && !(pump.state is Over) && !closed
            ==> action is FailAndRelease,
        action is FailAndRelease ==> state is Over,
        action is Release ==> state is Over,
{
}

/// Law: a parameter of the webcam sets its own field and nothing else; the last
/// value counts. One that is not known, or is no count, is refused, and so is
/// everything behind it.
pub proof fn law_cam_param_sets_its_own_field(
    entries: Seq<(String, ParamValue)>,
    entry: (String, ParamValue),
)
    ensures
        cam_params(Seq::empty()) == Ok::<CamFormat, Seq<char>>(
            CamFormat { width: None, height: None, framerate: None },
        ),
        cam_params(entries) is Err ==> cam_params(entries.push(entry)) == cam_params(entries),
        cam_params(entries) matches Ok(f) ==> {
            let got = cam_params(entries.push(entry));
            &&& entry.0@ == "width"@ ==> match entry.1 {
                ParamValue::Count(n) => got == Ok::<CamFormat, Seq<char>>(
                    CamFormat { width: Some(n), ..f },
                ),
                ParamValue::Other(_) => got is Err,
            }
            &&& entry.0@ == "height"@ ==> match entry.1 {
                ParamValue::Count(n) => got == Ok::<CamFormat, Seq<char>>(
                    CamFormat { height: Some(n), ..f },
                ),
                ParamValue::Other(_) => got is Err,
            }
            &&& entry.0@ == "framerate"@ ==> match entry.1 {
                ParamValue::Count(n) => got == Ok::<CamFormat, Seq<char>>(
                    CamFormat { framerate: Some(n), ..f },
                ),
                ParamValue::Other(_) => got is Err,
            }
            &&& entry.0@ != "width"@ && entry.0@ != "height"@ && entry.0@ != "framerate"@
                ==> got is Err
        },
{
    reveal_strlit("width");
    reveal_strlit("height");
    reveal_strlit("framerate");
    assert("width"@.len() != "height"@.len());
    assert("width"@.len() != "framerate"@.len());
    assert("height"@.len() != "framerate"@.len());
    assert(entries.push(entry).drop_last() =~= entries);
    assert(entries.push(entry).last() == entry);
}

/// Law: the time of a frame is in whole microseconds, as long as a counter holds
/// it; a frame without a time is at the start.
pub proof fn law_cam_time_is_in_microseconds(pts: i64, num: i32, den: i32)
    requires
        num > 0,
        den > 0,
        pts * num * 1_000_000 < 0x1_0000_0000_0000_0000 * den,
    ensures
        pts == i64::MIN ==> cam_time(pts, num, den) == 0,
        pts >= 0 ==> {
            let t = cam_time(pts, num, den);
            t * den <= pts * num * 1_000_000 < (t + 1) * den
        },
{
    if pts >= 0 {
        let a = pts * num * 1_000_000;
        let d = den as int;
        assert(a >= 0) by (nonlinear_arith)
            requires
                a == pts * num * 1_000_000,
                pts >= 0,
                num >= 0,
        ;
        let q = a / d;
        assert(q * d <= a < (q + 1) * d && 0 <= q < 0x1_0000_0000_0000_0000) by (nonlinear_arith)
            requires
                q == a / d,
                d >= 1,
                0 <= a < 0x1_0000_0000_0000_0000 * d,
        ;
    }
}

/// Law: the device is opened with the size only where both sides are asked for,
/// the width first, and with the frame rate exactly where it is asked for.
pub proof fn law_device_is_opened_as_asked(f: CamFormat)
    ensures
        ({
            let o = options_of(f);
            let sized = f.width is Some && f.height is Some;
            &&& o.len() == (if sized {
                1nat
            } else {
                0
            }) + (if f.framerate is Some {
                1nat
            } else {
                0
            })
            &&& sized ==> o[0] == (
                "video_size"@,
                decimal(f.width->0 as nat) + "x"@ + decimal(f.height->0 as nat),
            )
            &&& f.framerate is Some ==> o.last() == (
                "framerate"@,
                decimal(f.framerate->0 as nat),
            )
        }),
{
}

/// Law: a frame is pushed only once it was encoded, encoded only once all of its
/// rows were scaled, and scaled only by a scaler that was made for its shape; a
/// frame without an area is passed over.
pub proof fn law_cam_pushes_whole_frames(
    pump: CamPump,
    event: CamEvent,
    closed: bool,
    state: CamState,
    scaler: Option<FrameShape>,
    action: CamAction,
)
    requires
        cam_step(pump, event, closed, state, scaler, action),
    ensures
        action is Push ==> pump.state is Encoding && event is Done && state is Pushing,
        action is Encode ==> {
            &&& pump.state matches CamState::Scaling { shape }
            &&& event matches CamEvent::Rows { rows }
            &&& rows == shape.height
        },
        action is Scale ==> (state matches CamState::Scaling { shape } && scaler == Some(shape)),
        pump.state is Receiving ==> (event matches CamEvent::Frame { shape } ==> {
            &&& shape.width <= 0 || shape.height <= 0 ==> action is Receive && state is Receiving
            &&& shape.width > 0 && shape.height > 0 && pump.scaler != Some(shape) ==> action == (
            CamAction::MakeScaler { shape })
            &&& shape.width > 0 && shape.height > 0 && pump.scaler == Some(shape)
                ==> action is Scale
        }),
        pump.state is Pushing && event is Refused ==> action is Release,
        pump.state is Pushing && event is Taken ==> action is Receive,
{
}

/// Law: the loop waits for the outcome of what it does next. Every frame of a
/// packet is received before the next packet is read, and it sleeps only where no
/// packet is there yet.
pub proof fn law_cam_waits_for_what_it_does(
    pump: CamPump,
    event: CamEvent,
    closed: bool,
    state: CamState,
    scaler: Option<FrameShape>,
    action: CamAction,
)
    requires
        cam_step(pump, event, closed, state, scaler, action),
    ensures
        action is Ignore ==> state == pump.state && scaler == pump.scaler,
        action is SleepAndRead || action is DropAndRead ==> state is Reading,
        action is Send ==> state is Sending,
        action is Receive ==> state is Receiving,
        action is MakeScaler ==> state is Preparing,
        action is Scale ==> state is Scaling,
        action is Encode ==> state is Encoding,
        action is Push ==> state is Pushing,
        action is Release || action is FailAndRelease ==> state is Over,
        action is SleepAndRead <==> pump.state is Reading && event is ReadAgain,
        action is DropAndRead <==> {
            ||| pump.state is Reading && event is ReadOther
            ||| (pump.state is Sending || pump.state is Receiving) && event is Nothing
        },
        action is Release <==> {
            ||| pump.state is Pushing && event is Refused
            ||| pump.state is Reading && event is Failed && closed
        },
        action matches CamAction::MakeScaler { shape } ==> state == (CamState::Preparing { shape }),
        pump.state is Sending && event is Done ==> action is Receive,
        pump.state is Encoding && event is Done ==> action is Push,
        pump.state matches CamState::Scaling { shape } ==> (event matches CamEvent::Rows { rows }
            ==> (rows != shape.height ==> action is FailAndRelease)),
        scaler != pump.scaler ==> pump.state is Preparing,
{
}

} // verus!
