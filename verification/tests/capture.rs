//! Capture devices.

use capdag::bifaci::live_feed::{
    FeedStep, LiveFeedHandle, LiveFeedSelector, MetaValue, ParamValue, SyntheticFeedProvider,
    MEDIA_LIVE_SYNTHETIC,
};
use capdag::capture::device::{first_stream, open_error, ticks_to_us, OpenFailure, Platform};
use capdag::capture::microphone::{self, MicAction, MicEvent, MicFormat, MicPump, MicState};
use capdag::capture::webcam::{
    self, encode_rgba_png, frame_item, CamAction, CamEvent, CamFormat, CamPump, CamState,
    FrameShape, NO_TIME,
};
use capdag::capture::{
    backend_for, content_urn_for, open, Backend, MEDIA_FEED_FRAMES, MICROPHONE_CONTENT,
    MICROPHONE_REFERENCE, WEBCAM_CONTENT, WEBCAM_REFERENCE,
};
use capdag::urn::MediaUrn;

#[test]
fn test1457_capture_dispatch_is_closed_and_named() {
    let err = open("media:live;doesnotexist", &LiveFeedSelector::default(), true)
        .expect_err("an unknown device family must refuse");
    let msg = err.to_string();
    assert!(
        msg.contains("no capture backend") && msg.contains("media:live;doesnotexist"),
        "the refusal names the cause and the reference: {msg}"
    );

    let urn = |s: &str| MediaUrn::from_string(s).unwrap();
    assert_eq!(content_urn_for(&urn(MICROPHONE_REFERENCE)), Some(MICROPHONE_CONTENT));
    assert_eq!(content_urn_for(&urn(WEBCAM_REFERENCE)), Some(WEBCAM_CONTENT));
    assert_eq!(content_urn_for(&urn(MEDIA_LIVE_SYNTHETIC)), Some(MEDIA_FEED_FRAMES));
    assert_eq!(content_urn_for(&urn("media:live;doesnotexist")), None);
}

#[test]
fn test1458_synthetic_backend_bridges_end_to_end() {
    let mut selector = LiveFeedSelector::default();
    selector.params.insert("items".to_string(), ParamValue::Count(4));
    selector.params.insert("interval_ms".to_string(), ParamValue::Count(0));
    selector.params.insert("item_bytes".to_string(), ParamValue::Count(3));
    let (backend, mut feed, sink) =
        open(MEDIA_LIVE_SYNTHETIC, &selector, false).expect("synthetic feed opens");
    assert_eq!(backend, Backend::Synthetic);
    // Nothing is there yet, and the stream does not end.
    assert!(matches!(feed.next_step(false), FeedStep::Wait));
    let plan = SyntheticFeedProvider.plan(&selector);
    let mut overruns: u64 = 0;
    for i in 0..plan.items {
        sink.push(&mut feed, SyntheticFeedProvider.item(&plan, i, 0), &mut overruns);
    }
    sink.finish(&mut feed);
    let mut got: Vec<Vec<u8>> = Vec::new();
    loop {
        match feed.next_step(false) {
            FeedStep::Deliver(d) => got.push(d.item.payload),
            FeedStep::End => break,
            other => panic!("synthetic items deliver cleanly, got {other:?}"),
        }
    }
    assert_eq!(got, vec![vec![0u8; 3], vec![1u8; 3], vec![2u8; 3], vec![3u8; 3]]);
    assert_eq!(LiveFeedHandle.overruns(&feed), 0);
    assert_eq!(overruns, 0);
}

#[test]
fn devices_need_a_host_that_can_capture() {
    let urn = |s: &str| MediaUrn::from_string(s).unwrap();
    assert_eq!(backend_for(&urn(WEBCAM_REFERENCE)), Some(Backend::Webcam));
    assert_eq!(backend_for(&urn(MICROPHONE_REFERENCE)), Some(Backend::Microphone));
    assert!(open(WEBCAM_REFERENCE, &LiveFeedSelector::default(), true).is_ok());
    assert!(open(WEBCAM_REFERENCE, &LiveFeedSelector::default(), false).is_err());
    assert!(open("no urn", &LiveFeedSelector::default(), true).is_err());
}

#[test]
fn frames_become_png_images() {
    let rgba = [255u8, 0, 0, 255, 0, 255, 0, 128];
    let png = encode_rgba_png(2, 1, &rgba).unwrap();
    assert_eq!(&png[1..4], b"PNG");
    let image = image::load_from_memory(&png).unwrap().to_rgba8();
    assert_eq!(image.dimensions(), (2, 1));
    assert_eq!(image.into_raw(), rgba.to_vec());
}

#[test]
fn frames_without_a_time_start_at_zero() {
    assert_eq!(frame_item(vec![1], NO_TIME, 1, 30, 77).pts_us, 0);
    let item = frame_item(vec![1], 30, 1, 30, 77);
    assert_eq!((item.pts_us, item.capture_ts_us), (1_000_000, 77));
    assert_eq!(ticks_to_us(3, 1, 2), 1_500_000);
    assert_eq!(ticks_to_us(-1, 1, 1_000_000), u64::MAX);
    assert_eq!(first_stream(&vec![false, true, true]), Some(1));
    assert_eq!(first_stream(&vec![false]), None);
}

#[test]
fn microphones_take_a_rate_and_channels() {
    let mut selector = LiveFeedSelector::default();
    let plan = microphone::open(&selector, Platform::Linux).unwrap();
    assert_eq!((plan.format.sample_rate, plan.format.channels), (48000, 1));
    selector.params.insert("sample_rate".to_string(), ParamValue::Count(16000));
    let plan = microphone::open(&selector, Platform::MacOs).unwrap();
    assert_eq!(plan.format.sample_rate, 16000);
    let meta = microphone::stream_meta(&MicFormat { sample_rate: 16000, channels: 2 });
    assert!(meta.contains(&("sample_rate".to_string(), MetaValue::Integer(16000))));
    assert!(!microphone::device_options(&plan.format).is_empty());
    selector.params.insert("colour".to_string(), ParamValue::Count(1));
    assert!(microphone::capture_format(&selector).is_err());
    assert!(!microphone::input_format_name(Platform::Linux).is_empty());
    assert!(!microphone::default_device(Platform::Linux).is_empty());
}

#[test]
fn a_microphone_sets_its_resampler_up_twice_at_most() {
    let mut pump = MicPump::new(2, 1, 1000);
    let fail = |r: &str| MicEvent::Failed { reason: r.to_string() };
    assert!(matches!(pump.step(MicEvent::ReadPacket { pts: 5 }, false), MicAction::Send));
    assert!(matches!(pump.step(MicEvent::Done, false), MicAction::Receive));
    assert!(matches!(pump.step(MicEvent::Done, false), MicAction::Normalize));
    assert!(matches!(pump.step(MicEvent::Done, false), MicAction::Setup));
    assert!(matches!(pump.step(MicEvent::Done, false), MicAction::Convert));
    assert!(matches!(pump.step(fail("first"), false), MicAction::Setup));
    assert!(matches!(pump.step(MicEvent::Done, false), MicAction::Convert));
    match pump.step(fail("second"), false) {
        MicAction::FailAndRelease { message } => {
            assert_eq!(message, "microphone sample conversion failed: second");
        }
        other => panic!("expected a failure, got {other:?}"),
    }
    assert!(matches!(pump.state, MicState::Over));
}

#[test]
fn a_closed_microphone_ends_quietly() {
    let mut pump = MicPump::new(1, 1, 1000);
    let failed = MicEvent::Failed { reason: "gone".to_string() };
    assert!(matches!(pump.step(failed, true), MicAction::Release));
    let mut pump = MicPump::new(1, 1, 1000);
    assert!(matches!(pump.step(MicEvent::ReadAgain, false), MicAction::SleepAndRead));
    assert!(matches!(pump.step(MicEvent::ReadOther, false), MicAction::DropAndRead));
    assert!(matches!(pump.step(MicEvent::Taken, false), MicAction::Ignore));
}

#[test]
fn webcams_make_a_scaler_for_each_new_shape() {
    let shape = FrameShape { width: 4, height: 2, pix_fmt: 0 };
    let mut pump = CamPump::new();
    assert!(matches!(pump.step(CamEvent::ReadPacket, false), CamAction::Send));
    assert!(matches!(pump.step(CamEvent::Done, false), CamAction::Receive));
    assert!(matches!(
        pump.step(CamEvent::Frame { shape }, false),
        CamAction::MakeScaler { .. }
    ));
    assert!(matches!(pump.step(CamEvent::Done, false), CamAction::Scale));
    assert!(matches!(pump.step(CamEvent::Rows { rows: 2 }, false), CamAction::Encode));
    assert!(matches!(pump.step(CamEvent::Done, false), CamAction::Push));
    assert!(matches!(pump.step(CamEvent::Taken, false), CamAction::Receive));
    assert!(matches!(pump.step(CamEvent::Frame { shape }, false), CamAction::Scale));
    assert!(matches!(
        pump.step(CamEvent::Failed { reason: "x".to_string() }, false),
        CamAction::FailAndRelease { .. } | CamAction::Ignore
    ));
    assert!(!matches!(pump.state, CamState::Reading));
}

#[test]
fn webcams_take_a_size_and_a_rate() {
    let mut selector = LiveFeedSelector::default();
    selector.params.insert("width".to_string(), ParamValue::Count(640));
    selector.params.insert("height".to_string(), ParamValue::Count(480));
    let plan = webcam::open(&selector, Platform::Linux).unwrap();
    assert_eq!(plan.format, CamFormat { width: Some(640), height: Some(480), framerate: None });
    assert!(webcam::device_options(&plan.format)
        .contains(&("video_size".to_string(), "640x480".to_string())));
    let meta = webcam::stream_meta(640, 480);
    assert!(meta.contains(&("width".to_string(), MetaValue::Integer(640))));
    assert!(!webcam::input_format_name(Platform::MacOs).is_empty());
    assert!(!webcam::default_device(Platform::MacOs).is_empty());
    selector.params.insert("width".to_string(), ParamValue::Other("\"wide\"".to_string()));
    assert!(webcam::capture_format(&selector).is_err());
}

#[test]
fn failures_to_open_name_the_device() {
    let text = |f: OpenFailure| open_error(&f, "webcam", "/dev/video9").to_string();
    for failure in [
        OpenFailure::NoInputFormat { format_name: "v4l2".to_string() },
        OpenFailure::NameHoldsNul,
        OpenFailure::Call { what: "open".to_string(), reason: "busy".to_string() },
        OpenFailure::NoStream { medium: "video".to_string() },
        OpenFailure::NoDecoder,
    ] {
        assert!(!text(failure).is_empty());
    }
    assert!(text(OpenFailure::Call { what: "open".to_string(), reason: "busy".to_string() })
        .contains("busy"));
}

#[test]
fn an_open_feed_waits_until_its_producer_is_done() {
    let mut selector = LiveFeedSelector::default();
    selector.params.insert("items".to_string(), ParamValue::Count(3));
    selector.params.insert("item_bytes".to_string(), ParamValue::Count(2));
    let (_, mut feed, sink) =
        open(MEDIA_LIVE_SYNTHETIC, &selector, false).expect("synthetic feed opens");
    let plan = SyntheticFeedProvider.plan(&selector);
    let mut overruns: u64 = 0;
    for i in 0..plan.items {
        assert!(matches!(feed.next_step(false), FeedStep::Wait));
        let item = SyntheticFeedProvider.item(&plan, i, 0);
        let payload = item.payload.clone();
        assert!(sink.push(&mut feed, item, &mut overruns));
        match feed.next_step(false) {
            FeedStep::Deliver(d) => {
                assert_eq!(d.item.payload, payload);
                assert_eq!(d.seq, i);
                assert!(d.gap.is_none());
            }
            other => panic!("the item is there, got {other:?}"),
        }
    }
    assert!(matches!(feed.next_step(false), FeedStep::Wait));
    sink.finish(&mut feed);
    assert!(matches!(feed.next_step(false), FeedStep::End));
    assert_eq!(overruns, 0);
}
