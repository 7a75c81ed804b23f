//! Capture: which device a live reference names, what its feed delivers, and
//! the decisions of capturing. The set of devices is closed.

pub mod device;
pub mod microphone;
pub mod webcam;

use crate::bifaci::live_feed::{
    bad_reference, is_fresh, lemma_live_constants, new_feed, FeedShared, LiveFeedSelector,
    LiveFeedSink, RuntimeError, MEDIA_LIVE_SYNTHETIC,
};
use crate::text::{add_text, owned};
use crate::urn::{
    has_key, law_each_tag_is_met, lemma_three_markers, marker, media_parse, tags_accept, tags_wf,
    MediaUrn, TagView,
};
use vstd::prelude::*;

verus! {

broadcast use vstd::string::group_string_axioms;

/// What the deterministic feed delivers.
pub const MEDIA_FEED_FRAMES: &'static str = "media:feed-frames";

/// The references of microphones.
pub const MICROPHONE_REFERENCE: &'static str = "media:audio;live;microphone";

/// What a microphone delivers.
pub const MICROPHONE_CONTENT: &'static str = "media:audio-frames;pcm";

/// The references of webcams.
pub const WEBCAM_REFERENCE: &'static str = "media:image;live;webcam";

/// What a webcam delivers.
pub const WEBCAM_CONTENT: &'static str = "media:image;video-frame";

/// The kinds of devices.
#[derive(Debug, Clone, Copy, PartialEq, Eq, Structural)]
pub enum Backend {
    Synthetic,
    Microphone,
    Webcam,
}

/// The kind of device that a reference names: the first whose references accept
/// it.
pub open spec fn backend_of(reference: Seq<TagView>) -> Option<Backend> {
    if tags_accept(media_parse(MEDIA_LIVE_SYNTHETIC@)->0, reference) {
        Some(Backend::Synthetic)
    } else if tags_accept(media_parse(MICROPHONE_REFERENCE@)->0, reference) {
        Some(Backend::Microphone)
    } else if tags_accept(media_parse(WEBCAM_REFERENCE@)->0, reference) {
        Some(Backend::Webcam)
    } else {
        None
    }
}

/// The references of the devices read as markers.
proof fn lemma_device_constants()
    ensures
        media_parse(MEDIA_LIVE_SYNTHETIC@) is Some,
        media_parse(MICROPHONE_REFERENCE@) == Some(
            seq![marker("audio"@), marker("live"@), marker("microphone"@)],
        ),
        media_parse(WEBCAM_REFERENCE@) == Some(
            seq![marker("image"@), marker("live"@), marker("webcam"@)],
        ),
{
    lemma_live_constants();
    reveal_strlit("media:");
    reveal_strlit(";");
    reveal_strlit("audio");
    reveal_strlit("image");
    reveal_strlit("live");
    reveal_strlit("microphone");
    reveal_strlit("webcam");
    reveal_strlit("media:audio;live;microphone");
    reveal_strlit("media:image;live;webcam");
    assert(MICROPHONE_REFERENCE@ =~= "media:"@ + "audio"@ + ";"@ + "live"@ + ";"@ + "microphone"@);
    assert(WEBCAM_REFERENCE@ =~= "media:"@ + "image"@ + ";"@ + "live"@ + ";"@ + "webcam"@);
    lemma_three_markers("audio"@, "live"@, "microphone"@);
    lemma_three_markers("image"@, "live"@, "webcam"@);
}

/// Whether a constant reference accepts `reference`.
fn family_accepts(pattern: &str, reference: &MediaUrn) -> (r: bool)
    requires
        media_parse(pattern@) is Some,
    ensures
        r == tags_accept(media_parse(pattern@)->0, reference@),
{
    match MediaUrn::from_string(pattern) {
        Ok(urn) => urn.accepts(reference),
        Err(_) => false,
    }
}

/// The kind of device that a reference names.
pub fn backend_for(reference: &MediaUrn) -> (r: Option<Backend>)
    ensures
        r == backend_of(reference@),
{
    proof {
        lemma_device_constants();
    }
    if family_accepts(MEDIA_LIVE_SYNTHETIC, reference) {
        Some(Backend::Synthetic)
    } else if family_accepts(MICROPHONE_REFERENCE, reference) {
        Some(Backend::Microphone)
    } else if family_accepts(WEBCAM_REFERENCE, reference) {
        Some(Backend::Webcam)
    } else {
        None
    }
}

/// What the feed of a reference delivers, where it names a known device.
pub fn content_urn_for(reference: &MediaUrn) -> (r: Option<&'static str>)
    ensures
        match backend_of(reference@) {
            Some(Backend::Synthetic) => r is Some && r->0@ == MEDIA_FEED_FRAMES@,
            Some(Backend::Microphone) => r is Some && r->0@ == MICROPHONE_CONTENT@,
            Some(Backend::Webcam) => r is Some && r->0@ == WEBCAM_CONTENT@,
            None => r is None,
        },
{
    match backend_for(reference) {
        Some(Backend::Synthetic) => Some(MEDIA_FEED_FRAMES),
        Some(Backend::Microphone) => Some(MICROPHONE_CONTENT),
        Some(Backend::Webcam) => Some(WEBCAM_CONTENT),
        None => None,
    }
}

/// The error for a reference that names no known device.
pub open spec fn unknown_device_text(reference_urn: Seq<char>) -> Seq<char> {
    "no capture backend exists for live reference '"@ + reference_urn
        + "' — it is not a known device family (microphone, webcam, synthetic)"@
}

/// The error for a device that this build cannot capture from.
pub open spec fn no_hardware_text(reference_urn: Seq<char>) -> Seq<char> {
    "this build has no device capture (capdag built without the 'capture' feature) — live reference '"@
        + reference_urn
        + "' cannot be resolved here; run it through a capture-capable host or cartridge"@
}

/// Finds the device of a live reference and sets its feed up. `hardware` says
/// whether this build can capture from a microphone and a webcam.
pub fn open(reference_urn: &str, selector: &LiveFeedSelector, hardware: bool) -> (r: Result<
    (Backend, FeedShared, LiveFeedSink),
    RuntimeError,
>)
    requires
        selector.wf(),
    ensures
        match media_parse(reference_urn@) {
            None => r is Err && r->Err_0.message() == "live-feed reference URN '"@ + reference_urn@
                + "' is not a valid media URN: malformed URN"@,
            Some(reference) => match backend_of(reference) {
                None => r is Err && r->Err_0.message() == unknown_device_text(reference_urn@),
                Some(backend) => if backend != Backend::Synthetic && !hardware {
                    r is Err && r->Err_0.message() == no_hardware_text(reference_urn@)
                } else {
                    &&& r is Ok
                    &&& r->Ok_0.0 == backend
                    &&& is_fresh(r->Ok_0.1, *selector)
                    &&& r->Ok_0.2.max_items == selector.stop.max_items
                },
            },
        },
{
    let reference = match MediaUrn::from_string(reference_urn) {
        Ok(urn) => urn,
        Err(_) => {
            return Err(bad_reference(reference_urn));
        },
    };
    let backend = match backend_for(&reference) {
        Some(b) => b,
        None => {
            let mut t = owned("no capture backend exists for live reference '");
            add_text(&mut t, reference_urn);
            add_text(
                &mut t,
                "' — it is not a known device family (microphone, webcam, synthetic)",
            );
            return Err(RuntimeError::Handler(t));
        },
    };
    if backend != Backend::Synthetic && !hardware {
        let mut t = owned(
            "this build has no device capture (capdag built without the 'capture' feature) — live reference '",
        );
        add_text(&mut t, reference_urn);
        add_text(
            &mut t,
            "' cannot be resolved here; run it through a capture-capable host or cartridge",
        );
        return Err(RuntimeError::Handler(t));
    }
    let (feed, sink) = new_feed(selector);
    Ok((backend, feed, sink))
}

proof fn lemma_two_keys(a: Seq<char>, b: Seq<char>, ts: Seq<TagView>)
    requires
        tags_wf(ts),
    ensures
        tags_accept(seq![marker(a), marker(b)], ts) <==> has_key(ts, a) && has_key(ts, b),
{
    let p = seq![marker(a), marker(b)];
    law_each_tag_is_met(p, ts);
    assert(p[0].value is None && p[1].value is None);
    assert(p[0].key == a && p[1].key == b);
}

proof fn lemma_three_keys(a: Seq<char>, b: Seq<char>, c: Seq<char>, ts: Seq<TagView>)
    requires
        tags_wf(ts),
    ensures
        tags_accept(seq![marker(a), marker(b), marker(c)], ts) <==> has_key(ts, a) && has_key(ts, b)
            && has_key(ts, c),
{
    let p = seq![marker(a), marker(b), marker(c)];
    law_each_tag_is_met(p, ts);
    assert(p[0].value is None && p[1].value is None && p[2].value is None);
    assert(p[0].key == a && p[1].key == b && p[2].key == c);
}

/// Law: the kind of device is told by the tags of the reference: a live synthetic
/// feed is the deterministic one, live audio of a microphone is the microphone,
/// live images of a webcam are the webcam; without these tags there is none.
pub proof fn law_device_is_told_by_its_tags(ts: Seq<TagView>)
    requires
        tags_wf(ts),
    ensures
        ({
            let live = has_key(ts, "live"@);
            let synthetic = live && has_key(ts, "synthetic"@);
            let microphone = live && has_key(ts, "audio"@) && has_key(ts, "microphone"@);
            let webcam = live && has_key(ts, "image"@) && has_key(ts, "webcam"@);
            &&& backend_of(ts) == Some(Backend::Synthetic) <==> synthetic
            &&& backend_of(ts) == Some(Backend::Microphone) <==> microphone && !synthetic
            &&& backend_of(ts) == Some(Backend::Webcam) <==> webcam && !microphone && !synthetic
            &&& backend_of(ts) is None <==> !webcam && !microphone && !synthetic
        }),
{
    lemma_live_constants();
    lemma_device_constants();
    lemma_two_keys("live"@, "synthetic"@, ts);
    lemma_three_keys("audio"@, "live"@, "microphone"@, ts);
    lemma_three_keys("image"@, "live"@, "webcam"@, ts);
}

} // verus!
