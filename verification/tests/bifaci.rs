//! Frames, counters, credit, request state and live feeds.

use capdag::bifaci::binary_signing::{
    base64_decode, judge_signature, parse_minisign_public_key, raw_verify,
    root_pubkeys_from_build_env, signing_environment_from_build_env, split_root_pubkeys,
    verify_binary_signature, SignatureError,
};
use capdag::bifaci::cartridge_slug::{
    is_registry_slug, slug_for, slug_from_digest, DEV_SLUG, SLUG_HEX_LEN,
};
use capdag::bifaci::credit::{CreditGate, CreditRouter};
use capdag::bifaci::frame::{DropReason, FlowKey, Frame, FrameType, MessageId};
use capdag::bifaci::live_feed::{
    bad_selector, new_feed, open_feed, record_of, selector_record, Delivery, FeedShared, FeedStep,
    Gap, LiveFeedHandle, LiveFeedItem, LiveFeedProviders, LiveFeedSelector, LiveFeedSink,
    MetaValue, OverrunPolicy, ParamValue, RuntimeError, SyntheticFeedProvider, SyntheticStep,
};
use capdag::bifaci::local_socket::{socket_name, Arrival, ReadBuffer, ReadOutcome};
use capdag::bifaci::request_state::{
    FrameDirection, RequestKey, RequestPhase, RequestState, RequestTable, RoutingEntry,
    TerminalKind, RECENT_TERMINATED_CAP,
};
use capdag::bifaci::stats::{DropCounters, StragglerCounters, TerminatedFlows};
use capdag::urn::MediaUrn;
use sha2::{Digest, Sha256};

// ---------------------------------------------------------------------------
// Signatures
// ---------------------------------------------------------------------------

const RELEASE_PUBKEY: &str = "RWQf6LRCGA9i53mlYecO4IzT51TGPpvWucNSCh1CBM0QTaLn73Y7GFO3";
const ARTIFACT: &[u8] = b"test";
const ARTIFACT_SIG: &str = "untrusted comment: signature from minisign secret key
RUQf6LRCGA9i559r3g7V1qNyJDApGip8MfqcadIgT9CuhV3EMhHoN1mGTkUidF/z7SrlQgXdy8ofjb7bNJJylDOocrCo8KLzZwo=
trusted comment: timestamp:1633700835\tfile:test\tprehashed
wLMDjy9FLAuxZ3q4NlEvkgtyhrr0gtTu6KC4KBJdITbbOeAi1zBIYo0v4iTgt8jJpIidRJnp94ABQkJAgAooBQ==";
// The same key but for its number.
const WRONG_PUBKEY: &str = "RWQf6LRCGA9j53mlYecO4IzT51TGPpvWucNSCh1CBM0QTaLn73Y7GFO3";

#[test]
fn test8029_valid_binary_signature_verifies() {
    verify_binary_signature(RELEASE_PUBKEY, ARTIFACT_SIG, ARTIFACT)
        .expect("the committed signature must verify over the committed artifact");
}

#[test]
fn test8030_tampered_artifact_rejected() {
    let mut tampered = ARTIFACT.to_vec();
    tampered[0] ^= 0x01;
    let err = verify_binary_signature(RELEASE_PUBKEY, ARTIFACT_SIG, &tampered)
        .expect_err("a flipped byte must fail verification");
    assert!(matches!(err, SignatureError::VerificationFailed(_)), "got: {err:?}");
}

#[test]
fn test8031_wrong_key_rejected() {
    let err = verify_binary_signature(WRONG_PUBKEY, ARTIFACT_SIG, ARTIFACT)
        .expect_err("a signature must not verify under a different key");
    assert!(matches!(err, SignatureError::VerificationFailed(_)), "got: {err:?}");
}

#[test]
fn test8044_parse_release_pubkey() {
    let parsed = parse_minisign_public_key(RELEASE_PUBKEY).expect("release pubkey must parse");
    assert_eq!(parsed.key_id.len(), 16, "keynum is 8 bytes = 16 hex chars");
    assert!(parsed.key_id.chars().all(|c| c.is_ascii_hexdigit()));
    assert!(matches!(
        parse_minisign_public_key("not base64!!"),
        Err(SignatureError::MalformedPublicKey(_))
    ));
}

#[test]
fn test8038_root_pubkeys_from_build_env_passes_through_nonempty() {
    let keys = "RWRootAKeyBase64,RWRootBKeyBase64,RWRootCKeyBase64";
    assert_eq!(root_pubkeys_from_build_env(Some(keys)), Some(keys));
    assert_eq!(
        split_root_pubkeys(keys),
        vec!["RWRootAKeyBase64", "RWRootBKeyBase64", "RWRootCKeyBase64"]
    );
    assert_eq!(signing_environment_from_build_env(Some("staging")), Some("staging"));
}

#[test]
fn test8045_root_pubkeys_from_build_env_none_for_dev() {
    assert_eq!(root_pubkeys_from_build_env(None), None);
    assert_eq!(signing_environment_from_build_env(None), None);
}

#[test]
fn unreadable_keys_and_signatures_are_told_apart() {
    assert!(matches!(
        verify_binary_signature("nonsense", ARTIFACT_SIG, ARTIFACT),
        Err(SignatureError::MalformedPublicKey(_))
    ));
    assert!(matches!(
        verify_binary_signature(RELEASE_PUBKEY, "nonsense", ARTIFACT),
        Err(SignatureError::MalformedSignature(_))
    ));
    let why = || Err("no".to_string());
    assert!(judge_signature(Ok(()), Ok(()), Ok(())).is_ok());
    assert_eq!(
        judge_signature(why(), why(), why()),
        Err(SignatureError::MalformedPublicKey("no".to_string()))
    );
    assert_eq!(
        judge_signature(Ok(()), why(), why()),
        Err(SignatureError::MalformedSignature("no".to_string()))
    );
    assert_eq!(
        judge_signature(Ok(()), Ok(()), why()),
        Err(SignatureError::VerificationFailed("no".to_string()))
    );
}

#[test]
fn raw_signatures_are_checked_over_the_exact_bytes() {
    // A detached signature of 64 zero bytes signs nothing.
    let zeros = "A".repeat(86) + "==";
    assert!(matches!(
        raw_verify(RELEASE_PUBKEY, &zeros, b"test"),
        Err(SignatureError::VerificationFailed(_))
    ));
    assert!(matches!(
        raw_verify(RELEASE_PUBKEY, "AAAA", b"test"),
        Err(SignatureError::MalformedSignature(_))
    ));
    assert!(matches!(
        raw_verify("AAAA", &zeros, b"test"),
        Err(SignatureError::MalformedPublicKey(_))
    ));
}

#[test]
fn base64_reads_whole_groups_only() {
    assert_eq!(base64_decode("TWFu"), Some(b"Man".to_vec()));
    assert_eq!(base64_decode("TWE="), Some(b"Ma".to_vec()));
    assert_eq!(base64_decode("TQ=="), Some(b"M".to_vec()));
    assert_eq!(base64_decode("AP/+"), Some(vec![0, 255, 254]));
    assert_eq!(base64_decode("+/+/TWFu"), Some(b"\xfb\xff\xbfMan".to_vec()));
    assert_eq!(base64_decode("TQ"), None);
    assert_eq!(base64_decode("T=Q="), None);
}

// ---------------------------------------------------------------------------
// Slugs
// ---------------------------------------------------------------------------

#[test]
fn test1500_slug_for_central_registry_is_stable() {
    let url = "https://cartridges.machinefabric.com/manifest";
    let slug = slug_for(Some(url));
    let expected = {
        let mut h = Sha256::new();
        h.update(url.as_bytes());
        let d = h.finalize();
        format!("{:x}", d)[..SLUG_HEX_LEN].to_string()
    };
    assert_eq!(slug, expected);
    assert_eq!(slug.len(), SLUG_HEX_LEN);
    assert!(is_registry_slug(&slug));
}

#[test]
fn test1501_slug_for_none_is_dev() {
    assert_eq!(slug_for(None), DEV_SLUG);
    assert_ne!(DEV_SLUG.len(), SLUG_HEX_LEN);
    assert!(!is_registry_slug(DEV_SLUG));
}

#[test]
fn test1502_slug_byte_sensitivity() {
    let a = slug_for(Some("https://cartridges.machinefabric.com/manifest"));
    let b = slug_for(Some("https://cartridges.machinefabric.com/manifest/"));
    let c = slug_for(Some("https://CARTRIDGES.machinefabric.com/manifest"));
    let d = slug_for(Some("https://cartridges.machinefabric.com/manifest?v=1"));
    assert_ne!(a, b, "trailing slash must change slug");
    assert_ne!(a, c, "case change must change slug");
    assert_ne!(a, d, "query string must change slug");
}

#[test]
fn test1503_slug_is_deterministic() {
    let url = "https://example.com/some/registry/path?token=abc";
    let s1 = slug_for(Some(url));
    let s2 = slug_for(Some(url));
    let s3 = slug_for(Some(url));
    assert_eq!(s1, s2);
    assert_eq!(s2, s3);
}

#[test]
fn test1504_dev_never_collides_with_hex_slug() {
    assert_ne!(DEV_SLUG.len(), SLUG_HEX_LEN);
    let probes = [
        "",
        "https://a.test",
        "https://b.test",
        "ftp://example.com/",
        "https://localhost:8080/",
        "x",
    ];
    for p in probes {
        let s = slug_for(Some(p));
        assert_ne!(s, DEV_SLUG);
        assert_eq!(s.len(), SLUG_HEX_LEN);
    }
}

#[test]
fn test1505_is_registry_slug_classification() {
    assert!(!is_registry_slug(DEV_SLUG));
    assert!(!is_registry_slug(""));
    assert!(!is_registry_slug("nightly"));
    assert!(!is_registry_slug("ABCDEF1234567890"));
    assert!(!is_registry_slug("zzzz567890abcdef"));
    assert!(is_registry_slug("0123456789abcdef"));
    let real = slug_for(Some("https://cartridges.machinefabric.com/manifest"));
    assert!(is_registry_slug(&real));
}

#[test]
fn a_slug_is_the_start_of_a_digest() {
    assert_eq!(slug_from_digest("0123456789abcdefff"), "0123456789abcdef");
    // The SHA-256 of the empty text.
    assert_eq!(slug_for(Some("")), "e3b0c44298fc1c14");
}

// ---------------------------------------------------------------------------
// Credit
// ---------------------------------------------------------------------------

fn frame(frame_type: FrameType, id: MessageId, stream_id: Option<&str>) -> Frame {
    Frame {
        frame_type,
        id,
        stream_id: stream_id.map(|s| s.to_string()),
        payload: None,
        credits: None,
        unbounded: false,
        flow: true,
    }
}

fn credit_frame(id: MessageId, stream_id: Option<&str>, n: u64) -> Frame {
    Frame { credits: Some(n), ..frame(FrameType::Credit, id, stream_id) }
}

fn chunk_frame(id: MessageId, stream_id: &str, payload: Vec<u8>) -> Frame {
    Frame { payload: Some(payload), ..frame(FrameType::Chunk, id, Some(stream_id)) }
}

#[test]
fn test7015_credit_gate_acquire_and_grant() {
    let mut gate = CreditGate::new(2);
    assert!(gate.try_acquire(1).unwrap());
    assert!(gate.try_acquire(1).unwrap());
    assert_eq!(gate.available(), 0);
    assert!(!gate.try_acquire(1).unwrap(), "acquire must wait at zero credit");
    gate.grant(1);
    assert!(gate.try_acquire(1).unwrap(), "waiter must wake on grant");
}

#[test]
fn test7016_credit_gate_close_releases_waiters() {
    let mut gate = CreditGate::new(0);
    assert!(!gate.try_acquire(1).unwrap());
    gate.close("CANCELLED");
    let err = gate.try_acquire(1).unwrap_err();
    assert_eq!(err.reason, "CANCELLED");
    assert!(gate.try_acquire(1).is_err(), "closed gate rejects acquire");
    gate.grant(5);
    assert!(gate.try_acquire(1).is_err());
    assert!(gate.is_closed());
}

#[test]
fn test7017_credit_router_routing() {
    let mut router: CreditRouter<CreditGate> = CreditRouter::new();
    let rid = MessageId::Uuid(7);
    router.register(rid, Some("s1".to_string()), CreditGate::new(0));

    assert!(router.grant(&credit_frame(rid, Some("s1"), 3)));
    assert_eq!(router.gates[0].gate.available(), 3);

    assert!(router.grant(&credit_frame(rid, None, 2)));
    assert_eq!(router.gates[0].gate.available(), 5);

    router.register(rid, Some("s2".to_string()), CreditGate::new(0));
    assert!(!router.grant(&credit_frame(rid, None, 1)));

    assert!(!router.grant(&credit_frame(MessageId::Uuid(8), None, 1)));
}

#[test]
fn test7018_credit_router_close_request() {
    let mut router: CreditRouter<CreditGate> = CreditRouter::new();
    let rid = MessageId::Uuid(7);
    router.register(rid, Some("a".to_string()), CreditGate::new(0));
    router.register(rid, Some("b".to_string()), CreditGate::new(0));
    let mut closed = router.close_request(&rid, "END");
    assert!(router.is_empty());
    assert_eq!(closed.len(), 2);
    assert!(closed[1].gate.is_closed());
    let err = closed[0].gate.try_acquire(1).unwrap_err();
    assert_eq!(err.reason, "END");
}

#[test]
fn a_gate_never_lets_out_more_than_was_granted() {
    let mut gate = CreditGate::new(3);
    assert!(!gate.try_acquire(4).unwrap());
    assert_eq!(gate.available(), 3);
    assert!(gate.try_acquire(3).unwrap());
    gate.grant(u64::MAX);
    gate.grant(1);
    assert_eq!(gate.available(), u64::MAX);
    gate.close("END");
    gate.close("LATER");
    assert!(gate.try_acquire(1).unwrap_err().to_string().contains("END"));
}

#[test]
fn taking_a_request_leaves_the_others() {
    let mut router: CreditRouter<u8> = CreditRouter::new();
    router.register(MessageId::Uint(1), None, 10);
    router.register(MessageId::Uint(2), None, 20);
    router.register(MessageId::Uint(1), Some("s".to_string()), 11);
    router.register(MessageId::Uint(1), None, 12);
    assert_eq!(router.len(), 3);
    let taken = router.take_request(&MessageId::Uint(1));
    assert_eq!(taken.len(), 2);
    assert_eq!(router.len(), 1);
    assert_eq!(router.gates[0].gate, 20);
}

// ---------------------------------------------------------------------------
// Counters
// ---------------------------------------------------------------------------

#[test]
fn test7019_drop_counters_record_and_snapshot() {
    let mut counters = DropCounters::new();
    assert_eq!(counters.total(), 0);
    let empty = counters.snapshot();
    assert_eq!(empty.total, 0);
    assert!(empty.by_reason.entries.is_empty());
    assert!(empty.by_reason_frame_type.entries.is_empty());

    assert_eq!(counters.record(DropReason::NoRoute, FrameType::Chunk), 1);
    assert_eq!(counters.record(DropReason::NoRoute, FrameType::Credit), 2);
    assert_eq!(counters.record(DropReason::ChannelClosed, FrameType::Log), 1);

    assert_eq!(counters.get(DropReason::NoRoute), 2);
    assert_eq!(counters.get(DropReason::ChannelClosed), 1);
    assert_eq!(counters.get(DropReason::Cancelled), 0);
    assert_eq!(counters.get_frame(DropReason::NoRoute, FrameType::Chunk), 1);
    assert_eq!(counters.get_frame(DropReason::NoRoute, FrameType::Credit), 1);
    assert_eq!(counters.get_frame(DropReason::NoRoute, FrameType::End), 0);
    assert_eq!(counters.total(), 3);

    let snap = counters.snapshot();
    assert_eq!(snap.total, 3);
    assert_eq!(snap.by_reason.get("no_route"), Some(&2));
    assert_eq!(snap.by_reason.get("channel_closed"), Some(&1));
    assert!(
        !snap.by_reason.contains_key("cancelled"),
        "zero-count reasons are omitted from the snapshot"
    );
    let no_route = snap
        .by_reason_frame_type
        .get("no_route")
        .expect("per-frame-type breakdown present for non-zero reasons");
    assert_eq!(no_route.get("chunk"), Some(&1));
    assert_eq!(no_route.get("credit"), Some(&1));
    assert!(
        !no_route.contains_key("end"),
        "zero-count frame types are omitted from the breakdown"
    );
}

#[test]
fn test8127_straggler_counters_record_and_snapshot() {
    let mut stragglers = StragglerCounters::new();
    assert_eq!(stragglers.total(), 0);
    let empty = stragglers.snapshot();
    assert_eq!(empty.total, 0);
    assert!(empty.by_frame_type.entries.is_empty());

    assert_eq!(stragglers.record(FrameType::Credit), 1);
    assert_eq!(stragglers.record(FrameType::Credit), 2);
    assert_eq!(stragglers.record(FrameType::Chunk), 3);

    assert_eq!(stragglers.get(FrameType::Credit), 2);
    assert_eq!(stragglers.get(FrameType::Chunk), 1);
    assert_eq!(stragglers.get(FrameType::End), 0);

    let snap = stragglers.snapshot();
    assert_eq!(snap.total, 3);
    assert_eq!(snap.by_frame_type.get("credit"), Some(&2));
    assert_eq!(snap.by_frame_type.get("chunk"), Some(&1));
    assert!(
        !snap.by_frame_type.contains_key("end"),
        "zero-count frame types are omitted from the snapshot"
    );
}

#[test]
fn test7029_terminated_flows_capacity_and_eviction() {
    let mut flows = TerminatedFlows::new(2);
    let k = |n: u64| FlowKey { rid: MessageId::Uint(n), xid: None };

    flows.insert(k(1));
    flows.insert(k(1));
    flows.insert(k(2));
    assert_eq!(flows.len(), 2);
    assert!(flows.contains(&k(1)) && flows.contains(&k(2)));

    flows.insert(k(3));
    assert_eq!(flows.len(), 2);
    assert!(!flows.contains(&k(1)));
    assert!(flows.contains(&k(2)) && flows.contains(&k(3)));

    let with_xid = FlowKey { rid: MessageId::Uint(2), xid: Some(MessageId::Uint(9)) };
    assert!(!flows.contains(&with_xid));
}

#[test]
fn identities_are_shown_as_numbers_and_uuids() {
    assert_eq!(MessageId::Uint(18446744073709551615).to_string(), "18446744073709551615");
    assert_eq!(MessageId::Uuid(0).to_string(), "00000000-0000-0000-0000-000000000000");
    assert_eq!(
        MessageId::Uuid(0x0123_4567_89ab_cdef_0123_4567_89ab_cdef).to_string(),
        "01234567-89ab-cdef-0123-456789abcdef"
    );
}

// ---------------------------------------------------------------------------
// Request state
// ---------------------------------------------------------------------------

fn key(x: u64, r: u64) -> RequestKey {
    (MessageId::Uint(x), MessageId::Uint(r))
}

fn state(dest: usize, origin: Option<usize>, is_peer: bool) -> RequestState {
    RequestState::new(
        RoutingEntry { source_master_idx: origin, destination_master_idx: dest },
        origin,
        None,
        is_peer,
        0,
    )
}

#[test]
fn test7092_cap_urn_attribution_survives_lifecycle() {
    let mut table = RequestTable::new();
    let named = key(1, 9);
    table
        .register(
            named,
            state(0, Some(1), false).with_cap_urn(Some("cap:effect=none".to_string())),
        )
        .unwrap();
    let anonymous = key(2, 10);
    table.register(anonymous, state(0, Some(1), true)).unwrap();

    let snapshot = table.snapshot(0);
    let by_rid = |rid: &str| snapshot.active.iter().find(|r| r.rid == rid).unwrap();
    assert_eq!(
        by_rid("9").cap_urn.as_deref(),
        Some("cap:effect=none"),
        "active snapshot names the request's cap"
    );
    assert_eq!(by_rid("10").cap_urn, None, "unknown identity stays absent");

    table.terminate(&named, TerminalKind::End, 0).unwrap();
    let snapshot = table.snapshot(0);
    assert_eq!(
        snapshot.recent_terminated[0].cap_urn.as_deref(),
        Some("cap:effect=none"),
        "the terminated ring keeps the cap identity"
    );
}

#[test]
fn test7088_last_activity_monotonic() {
    let mut table = RequestTable::new();
    let k = key(1, 5);
    table.register(k, state(0, None, false)).unwrap();
    let rid = MessageId::Uint(5);

    let mut now = 0;
    let mut last_activity_points = Vec::new();
    for _ in 0..3u64 {
        now += 15;
        table.record_frame(&k, FrameDirection::Inbound, &chunk_frame(rid, "s", vec![0; 4]), now);
        let entry = table.get(&k).unwrap();
        assert!(entry.last_activity >= entry.created_at, "activity never precedes creation");
        last_activity_points.push(entry.last_activity);
    }
    for pair in last_activity_points.windows(2) {
        assert!(pair[1] >= pair[0], "last_activity must be monotonic non-decreasing");
    }
    now += 15;
    let snap = table.snapshot(now);
    let req = &snap.active[0];
    assert!(req.idle_ms <= req.age_ms);
    assert!(req.age_ms >= 45, "age accumulates across the request lifetime");
    assert_eq!((req.idle_ms, req.age_ms), (15, 60));
}

#[test]
fn test7030_register_once_terminate_once() {
    let mut table = RequestTable::new();
    let k = key(1, 100);

    table.register(k, state(0, None, false)).unwrap();
    assert!(table.contains(&k));
    assert_eq!(table.xid_for_rid(&MessageId::Uint(100)), Some(MessageId::Uint(1)));

    let err = table.register(k, state(0, None, false)).unwrap_err();
    assert!(err.contains("already registered"));

    let err = table.register(key(2, 100), state(0, None, false)).unwrap_err();
    assert!(err.contains("already indexed"));

    let removed = table.terminate(&k, TerminalKind::End, 0).expect("live entry");
    assert!(!removed.is_peer);
    assert!(!table.contains(&k), "no entry remains after terminate");
    assert_eq!(
        table.xid_for_rid(&MessageId::Uint(100)),
        None,
        "rid index removed with the entry (L7)"
    );
    assert!(
        table.terminate(&k, TerminalKind::End, 0).is_none(),
        "termination happens exactly once"
    );
}

#[test]
fn test7031_rid_index_consistency() {
    let mut table = RequestTable::new();
    for round in 0..3u64 {
        for n in 0..10u64 {
            let k = key(round * 100 + n, n);
            table.register(k, state(0, None, false)).unwrap();
        }
        for n in 0..10u64 {
            let k = key(round * 100 + n, n);
            let xid = table.xid_for_rid(&MessageId::Uint(n)).expect("indexed");
            assert_eq!(xid, k.0, "index resolves to the live entry's xid");
            assert!(table.contains(&(xid, MessageId::Uint(n))));
            table.terminate(&k, TerminalKind::End, 0).unwrap();
            assert_eq!(table.xid_for_rid(&MessageId::Uint(n)), None);
        }
    }
    assert!(table.is_empty());
    assert_eq!(table.snapshot(0).total_registered, 30);
}

#[test]
fn test7032_record_frame_stats_and_phase() {
    let mut table = RequestTable::new();
    let k = key(1, 7);
    table.register(k, state(0, None, false)).unwrap();
    assert_eq!(table.get(&k).unwrap().phase, RequestPhase::Created);

    let rid = MessageId::Uint(7);
    let ss = Frame { unbounded: true, ..frame(FrameType::StreamStart, rid, Some("s1")) };
    table.record_frame(&k, FrameDirection::Inbound, &ss, 1);
    assert_eq!(table.get(&k).unwrap().phase, RequestPhase::Streaming);

    let chunk = chunk_frame(rid, "s1", vec![0; 100]);
    table.record_frame(&k, FrameDirection::Inbound, &chunk, 2);
    table.record_frame(&k, FrameDirection::Outbound, &chunk, 3);

    table.record_frame(&k, FrameDirection::Outbound, &credit_frame(rid, Some("s1"), 4), 4);

    let se = frame(FrameType::StreamEnd, rid, Some("s1"));
    table.record_frame(&k, FrameDirection::Inbound, &se, 5);

    let entry = table.get(&k).unwrap();
    let s1 = entry.stream(&Some("s1".to_string())).unwrap();
    assert_eq!(s1.frames_in, 3, "stream_start + chunk + stream_end");
    assert_eq!(s1.frames_out, 2, "chunk + credit");
    assert_eq!(s1.chunks_in, 1);
    assert_eq!(s1.chunks_out, 1);
    assert_eq!(s1.bytes_in, 100);
    assert_eq!(s1.bytes_out, 100);
    assert!(s1.unbounded);
    assert!(s1.ended);
    assert_eq!(s1.credit_outstanding, 3);
}

#[test]
fn test7033_terminated_summaries_ring() {
    let mut table = RequestTable::new();
    for n in 0..(RECENT_TERMINATED_CAP as u64 + 3) {
        let k = key(n, n);
        table.register(k, state(0, Some(2), true)).unwrap();
        let chunk = chunk_frame(MessageId::Uint(n), "s", vec![0; 10]);
        table.record_frame(&k, FrameDirection::Inbound, &chunk, 0);
        table.terminate(&k, TerminalKind::Cancelled, 0).unwrap();
    }
    let snap = table.snapshot(0);
    assert_eq!(snap.recent_terminated.len(), RECENT_TERMINATED_CAP);
    assert_eq!(snap.recent_terminated[0].rid, MessageId::Uint(3).to_string());
    let last = snap.recent_terminated.last().unwrap();
    assert_eq!(last.kind, TerminalKind::Cancelled);
    assert!(last.is_peer);
    assert_eq!(last.frames_in, 1);
    assert_eq!(last.bytes_in, 10);
    assert_eq!(
        snap.terminated_by_kind.get("cancelled"),
        Some(&(RECENT_TERMINATED_CAP as u64 + 3))
    );
}

#[test]
fn who_watches_requests_end_misses_none() {
    let mut table = RequestTable::new();
    assert!(table.last_terminated().is_none());
    let mut seen: Vec<String> = Vec::new();
    for n in 0..(RECENT_TERMINATED_CAP as u64 + 3) {
        table.register(key(n, n), state(0, None, false)).unwrap();
        if table.terminate(&key(n, n), TerminalKind::End, 0).is_some() {
            seen.push(table.last_terminated().unwrap().rid.clone());
        }
        assert!(table.terminate(&key(n, n), TerminalKind::End, 0).is_none());
    }
    assert_eq!(seen.len(), RECENT_TERMINATED_CAP + 3);
    assert_eq!(seen[1], "1");
    assert_eq!(seen.last().unwrap(), &MessageId::Uint(RECENT_TERMINATED_CAP as u64 + 2).to_string());
}

#[test]
fn children_are_linked_once_and_snapshots_are_sorted() {
    let mut table = RequestTable::new();
    table.register(key(1, 30), state(0, None, false)).unwrap();
    table.register(key(2, 20), state(1, None, true)).unwrap();
    table.link_child(&key(1, 30), key(2, 20));
    assert_eq!(table.get(&key(1, 30)).unwrap().children, vec![key(2, 20)]);
    assert_eq!(table.len(), 2);
    assert_eq!(table.keys().len(), 2);
    assert_eq!(table.keys_where(|s: &RequestState| s.is_peer), vec![key(2, 20)]);
    let snap = table.snapshot(5);
    assert_eq!(snap.active[0].rid, "20");
    assert_eq!(snap.active[1].rid, "30");
    assert_eq!(snap.active[1].children, 1);
    table.get_mut(&key(2, 20)).unwrap().is_peer = false;
    assert!(table.keys_where(|s: &RequestState| s.is_peer).is_empty());
}

// ---------------------------------------------------------------------------
// Live feeds
// ---------------------------------------------------------------------------

fn item(n: u64) -> LiveFeedItem {
    LiveFeedItem { payload: vec![n as u8], pts_us: n * 1000, capture_ts_us: 5_000_000 + n }
}

#[test]
fn a_full_ring_drops_its_oldest_item_and_tells_of_it() {
    let mut feed = FeedShared::new(2, OverrunPolicy::DropOldest);
    let sink = LiveFeedSink { max_items: None };
    let mut overruns: u64 = 0;
    for n in 0..3 {
        assert!(sink.push(&mut feed, item(n), &mut overruns));
    }
    assert_eq!(overruns, 1);
    assert_eq!(LiveFeedHandle.overruns(&feed), 1);
    match feed.next_step(false) {
        FeedStep::Deliver(d) => {
            assert_eq!(d.seq, 1);
            assert_eq!(d.item.payload, vec![1]);
            assert_eq!(d.gap, Some(Gap { dropped: 1, duration_us: 0 }));
            let meta = d.meta();
            assert_eq!(meta[0], ("seq".to_string(), MetaValue::Integer(1)));
            assert_eq!(meta[1], ("pts_us".to_string(), MetaValue::Integer(1000)));
            assert_eq!(
                meta[3],
                ("gap".to_string(), MetaValue::Gap { dropped: 1, duration_us: 0 })
            );
        }
        other => panic!("expected a delivery, got {other:?}"),
    }
    sink.finish(&mut feed);
    assert!(matches!(feed.next_step(false), FeedStep::Deliver(Delivery { seq: 2, gap: None, .. })));
    assert!(matches!(feed.next_step(false), FeedStep::End));
}

#[test]
fn an_ended_stream_accounts_for_every_item() {
    let mut feed = FeedShared::new(3, OverrunPolicy::DropOldest);
    let sink = LiveFeedSink { max_items: Some(20) };
    let mut counted: u64 = 0;
    let mut seqs: Vec<u64> = Vec::new();
    let mut told: u64 = 0;
    let mut more = true;
    let mut n: u64 = 0;
    loop {
        // Five items come for every two that leave.
        for _ in 0..5 {
            if more {
                more = sink.push(&mut feed, item(n), &mut counted);
                n += 1;
            }
        }
        let mut ended = false;
        for _ in 0..2 {
            match feed.next_step(false) {
                FeedStep::Deliver(d) => {
                    told += d.gap.map(|g| g.dropped).unwrap_or(0);
                    seqs.push(d.seq);
                }
                FeedStep::End => ended = true,
                other => panic!("expected a delivery or the end, got {other:?}"),
            }
        }
        if ended {
            break;
        }
    }
    assert_eq!(feed.captured, 20);
    assert_eq!(seqs.len() as u64 + feed.overruns, 20);
    assert_eq!(told, feed.overruns);
    assert_eq!(counted, feed.overruns);
    assert!(seqs.windows(2).all(|w| w[0] < w[1]), "got: {seqs:?}");
}

#[test]
fn a_feed_that_must_not_lose_fails_instead() {
    let mut feed = FeedShared::new(1, OverrunPolicy::Fail);
    let sink = LiveFeedSink { max_items: None };
    let mut overruns: u64 = 0;
    assert!(sink.push(&mut feed, item(0), &mut overruns));
    assert!(!sink.push(&mut feed, item(1), &mut overruns));
    assert!(matches!(feed.next_step(false), FeedStep::Fail(_)));
}

#[test]
fn a_feed_stops_at_its_last_item_and_when_it_is_closed() {
    let mut feed = FeedShared::new(8, OverrunPolicy::DropOldest);
    let sink = LiveFeedSink { max_items: Some(2) };
    let mut overruns: u64 = 0;
    assert!(sink.push(&mut feed, item(0), &mut overruns));
    assert!(!sink.push(&mut feed, item(1), &mut overruns));
    assert!(feed.producer_done && !sink.is_closed(&feed));
    assert!(matches!(feed.next_step(false), FeedStep::Deliver(Delivery { seq: 0, .. })));
    assert!(matches!(feed.next_step(false), FeedStep::Deliver(Delivery { seq: 1, .. })));
    assert!(matches!(feed.next_step(false), FeedStep::End));

    let mut other = FeedShared::new(8, OverrunPolicy::DropOldest);
    assert!(matches!(other.next_step(false), FeedStep::Wait));
    LiveFeedHandle.close(&mut other);
    assert!(sink.is_closed(&other));
    other.captured = u64::MAX;
    assert!(!sink.push(&mut other, item(0), &mut overruns));
    assert_eq!(other.captured, u64::MAX);
    assert!(matches!(other.next_step(false), FeedStep::End));
    let mut timed = FeedShared::new(8, OverrunPolicy::DropOldest);
    assert!(matches!(timed.next_step(true), FeedStep::End));
    let mut failed = FeedShared::new(8, OverrunPolicy::DropOldest);
    sink.fail(&mut failed, "device gone".to_string());
    assert!(matches!(failed.next_step(false), FeedStep::Fail(m) if m == "device gone"));
}

#[test]
fn selectors_are_read_from_the_first_record() {
    assert_eq!(record_of("  \n"), None);
    assert_eq!(selector_record(b"").as_deref(), None);
    assert_eq!(selector_record(b" {\"a\":1} \n").as_deref(), Some("{\"a\":1}"));
    // A byte that is no UTF-8 is replaced, and not handed on.
    assert_eq!(selector_record(&[0xff, b'x']).as_deref(), Some("\u{fffd}x"));
    let RuntimeError::Handler(text) = bad_selector("no object", "[]");
    assert!(text.contains("no object") && text.contains("[]"), "got: {text}");
}

#[test]
fn the_synthetic_feed_is_deterministic() {
    let mut selector = LiveFeedSelector::default();
    let provider = SyntheticFeedProvider;
    assert_eq!(provider.name(), "synthetic");
    let plan = provider.plan(&selector);
    assert_eq!((plan.items, plan.interval_ms, plan.item_bytes), (10, 10, 32));
    selector.params.insert("items".to_string(), ParamValue::Count(3));
    selector.params.insert("item_bytes".to_string(), ParamValue::Count(0));
    selector.params.insert("interval_ms".to_string(), ParamValue::Other("\"x\"".to_string()));
    let plan = provider.plan(&selector);
    assert_eq!((plan.items, plan.interval_ms, plan.item_bytes), (3, 10, 1));
    let second = provider.item(&plan, 257, 1_000);
    assert_eq!(second.payload, vec![1]);
    assert_eq!(second.pts_us, 2_570_000);
    assert_eq!(second.capture_ts_us, 2_571_000);
    let meta = provider.stream_meta(&plan);
    assert_eq!(meta[0], ("feed".to_string(), MetaValue::Text("synthetic".to_string())));
    assert_eq!(meta[1], ("interval_ms".to_string(), MetaValue::Integer(10)));
}

#[test]
fn the_synthetic_producer_stops_where_it_should() {
    let provider = SyntheticFeedProvider;
    let mut plan = provider.plan(&LiveFeedSelector::default());
    let mut count: u64 = 0;
    while let SyntheticStep::Push { item, pause_ms } =
        provider.next_step(&plan, count, true, false, 1_000)
    {
        assert_eq!(pause_ms, 10);
        assert_eq!(item.pts_us, count * 10_000);
        assert_eq!(item.payload, vec![count as u8; 32]);
        count += 1;
    }
    assert_eq!(count, plan.items);
    assert!(matches!(provider.next_step(&plan, 1, false, false, 0), SyntheticStep::Finish));
    assert!(matches!(provider.next_step(&plan, 1, true, true, 0), SyntheticStep::Finish));
    plan.interval_ms = u64::MAX;
    assert!(matches!(provider.next_step(&plan, 1, true, false, 0), SyntheticStep::OutOfRange));
}

#[test]
fn the_nearest_provider_opens_a_feed() {
    let mut providers: LiveFeedProviders<&str> = LiveFeedProviders::new("synthetic");
    providers.register("media:live;microphone", "mic");
    let reference = MediaUrn::from_string("media:live;microphone;audio").unwrap();
    let place = providers.find(&reference).unwrap();
    assert_eq!(providers.entries[place].1, "mic");
    assert!(providers.find(&MediaUrn::from_string("media:live;webcam").unwrap()).is_none());
    let opened =
        open_feed(&providers, "media:live;synthetic", &LiveFeedSelector::default()).unwrap();
    assert_eq!(opened.provider, 0);
    assert_eq!(opened.feed.ring_cap, 64);
    assert!(open_feed(&providers, "media:live;webcam", &LiveFeedSelector::default()).is_err());
    assert!(open_feed(&providers, "no urn", &LiveFeedSelector::default()).is_err());
    let (feed, sink) = new_feed(&LiveFeedSelector::default());
    assert_eq!(feed.captured, 0);
    assert_eq!(sink.max_items, None);
    assert_eq!(providers.overruns_total(), 0);
}

// ---------------------------------------------------------------------------
// Local sockets
// ---------------------------------------------------------------------------

#[test]
fn bytes_come_out_as_they_came_in() {
    let mut buffer = ReadBuffer::new();
    let (first, outcome) = buffer.receive(3, false, Arrival::Bytes(vec![1, 2, 3, 4, 5]));
    assert_eq!((first, outcome), (vec![1, 2, 3], ReadOutcome::Ready));
    assert_eq!(buffer.take(1), vec![4]);
    assert_eq!(buffer.take(9), vec![5]);
    assert_eq!(buffer.take(9), Vec::<u8>::new());
    assert_eq!(buffer.receive(9, false, Arrival::Nothing).1, ReadOutcome::Pending);
    assert_eq!(buffer.receive(9, true, Arrival::Nothing).1, ReadOutcome::Ready);
    assert_eq!(buffer.receive(9, false, Arrival::Ended).1, ReadOutcome::Ready);
    assert_eq!(buffer.receive(9, false, Arrival::Failed).1, ReadOutcome::Failed);
    assert_eq!(socket_name(12, 345), "machinefabric-12-345.sock");
}
