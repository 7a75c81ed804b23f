//! Live feeds: items that a device captures, a bounded ring between the device
//! and the consumer, and an exact account of what was lost.
//!
//! The state of a feed is one value. The capture side pushes into it through a
//! [`LiveFeedSink`], the delivery side asks it what to do next, and a
//! [`LiveFeedHandle`] closes it. Whoever shares a feed between threads puts it
//! behind a lock; waiting and the clock are the caller's.

use crate::text::{
    add_text, decimal, decimal_text, lossy_text, opt_text, owned, to_lossy_text, trim, trimmed,
};
use crate::text_map::TextMap;
use crate::urn::{
    has_key, law_each_tag_is_met, law_parsed_tags_are_sorted, lemma_lookup, lemma_one_marker,
    lemma_two_markers, marker, media_parse, tags_accept, MediaUrn, TagView,
};
use std::collections::VecDeque;
use vstd::prelude::*;

verus! {

broadcast use vstd::string::group_string_axioms;

/// The references that name a live feed.
pub const MEDIA_LIVE_FEED: &'static str = "media:live";

/// The reference of the deterministic feed.
pub const MEDIA_LIVE_SYNTHETIC: &'static str = "media:live;synthetic";

// ---------------------------------------------------------------------------
// Selectors
// ---------------------------------------------------------------------------

/// An error of the runtime, with its message.
#[derive(Debug, PartialEq, Eq)]
pub enum RuntimeError {
    Handler(String),
}

impl RuntimeError {
    /// The error's message.
    pub open spec fn message(self) -> Seq<char> {
        match self {
            RuntimeError::Handler(text) => text@,
        }
    }

    /// The error's message.
    pub fn to_string(&self) -> (r: String)
        ensures
            r@ == self.message(),
    {
        match self {
            RuntimeError::Handler(text) => text.clone(),
        }
    }
}

/// What is done with an item for which the ring has no room.
#[derive(Debug, Clone, Copy, PartialEq, Eq, Structural)]
pub enum OverrunPolicy {
    /// The oldest item of the ring makes room, and is counted.
    DropOldest,
    /// The feed ends with an error.
    Fail,
}

impl Default for OverrunPolicy {
    fn default() -> (r: Self)
        ensures
            r == OverrunPolicy::DropOldest,
    {
        OverrunPolicy::DropOldest
    }
}

/// When a feed stops by itself.
#[derive(Debug, Clone, Copy, PartialEq, Eq, Structural)]
pub struct LiveFeedStop {
    /// After this much capture time.
    pub duration_ms: Option<u64>,
    /// After this many captured items, those that were dropped among them.
    pub max_items: Option<u64>,
}

impl Default for LiveFeedStop {
    fn default() -> (r: Self)
        ensures
            r == (LiveFeedStop { duration_ms: None, max_items: None }),
    {
        LiveFeedStop { duration_ms: None, max_items: None }
    }
}

/// The value of a capture parameter.
#[derive(Debug, PartialEq, Eq)]
pub enum ParamValue {
    /// A number that is not negative and has no fraction.
    Count(u64),
    /// Anything else, as JSON text.
    Other(String),
}

/// What a reference asks for.
#[derive(Debug)]
pub struct LiveFeedSelector {
    pub device: Option<String>,
    pub params: TextMap<ParamValue>,
    pub stop: LiveFeedStop,
    pub on_overrun: OverrunPolicy,
}

impl LiveFeedSelector {
    /// No parameter is given twice.
    pub open spec fn wf(&self) -> bool {
        self.params.wf()
    }

    /// A parameter that is a count.
    pub open spec fn count_param(&self, key: Seq<char>) -> Option<u64> {
        if self.params@.dom().contains(key) {
            match self.params@[key] {
                ParamValue::Count(n) => Some(n),
                ParamValue::Other(_) => None,
            }
        } else {
            None
        }
    }

    /// A parameter that is a count.
    pub fn get_count(&self, key: &str) -> (r: Option<u64>)
        requires
            self.wf(),
        ensures
            r == self.count_param(key@),
    {
        match self.params.get(key) {
            Some(ParamValue::Count(n)) => Some(*n),
            _ => None,
        }
    }
}

impl Default for LiveFeedSelector {
    fn default() -> (r: Self)
        ensures
            r.wf(),
            r.device is None,
            r.params@ == Map::<Seq<char>, ParamValue>::empty(),
            r.stop == (LiveFeedStop { duration_ms: None, max_items: None }),
            r.on_overrun == OverrunPolicy::DropOldest,
    {
        LiveFeedSelector {
            device: None,
            params: TextMap::new(),
            stop: LiveFeedStop::default(),
            on_overrun: OverrunPolicy::default(),
        }
    }
}

/// The selector record in a reference's value: `None` where the value is blank,
/// which stands for the selector of all defaults; else the value without the
/// white space around it.
pub fn selector_record(bytes: &[u8]) -> (r: Option<String>)
    ensures
        opt_text(r) == record_in(lossy_text(bytes@)),
{
    record_of(&to_lossy_text(bytes))
}

/// The record in a text: the text without the white space around it, unless
/// nothing is left.
pub open spec fn record_in(text: Seq<char>) -> Option<Seq<char>> {
    if trimmed(text).len() == 0 {
        None
    } else {
        Some(trimmed(text))
    }
}

/// The record in a text.
pub fn record_of(text: &str) -> (r: Option<String>)
    ensures
        opt_text(r) == record_in(text@),
{
    let record = trim(text);
    if record.as_str().is_empty() {
        None
    } else {
        Some(record)
    }
}

/// The error for a value that is no selector record.
pub fn bad_selector(reason: &str, record: &str) -> (r: RuntimeError)
    ensures
        r.message() == "live-feed selector is not a valid selector record: "@ + reason@
            + " (value: "@ + record@ + ")"@,
{
    let mut t = owned("live-feed selector is not a valid selector record: ");
    add_text(&mut t, reason);
    add_text(&mut t, " (value: ");
    add_text(&mut t, record);
    add_text(&mut t, ")");
    RuntimeError::Handler(t)
}

// ---------------------------------------------------------------------------
// The state of a feed
// ---------------------------------------------------------------------------

/// A captured item.
#[derive(Debug)]
pub struct LiveFeedItem {
    pub payload: Vec<u8>,
    /// When the item is to be presented, in microseconds from the start.
    pub pts_us: u64,
    /// When the item was captured, in Unix microseconds.
    pub capture_ts_us: u64,
}

/// An item of the ring with its number in the order of capture.
#[derive(Debug)]
pub struct RingItem {
    pub item: LiveFeedItem,
    pub seq: u64,
}

/// The state of a feed.
#[derive(Debug)]
pub struct FeedShared {
    pub ring: VecDeque<RingItem>,
    /// How many items the ring has room for, at least 1.
    pub ring_cap: u64,
    pub policy: OverrunPolicy,
    /// Nothing more is taken in.
    pub closed: bool,
    /// The producer is done; the ring is still delivered.
    pub producer_done: bool,
    /// The error that the feed ends with.
    pub failed: Option<String>,
    /// How many items were captured; the number of the next one.
    pub captured: u64,
    /// How many items were dropped since the last delivery.
    pub dropped_since_delivery: u64,
    /// How many items were dropped.
    pub overruns: u64,
    /// When the last delivered item was to be presented.
    pub last_delivered_pts: Option<u64>,
}

/// The message of a feed that ends because the ring was full.
pub open spec fn overrun_text(seq: u64) -> Seq<char> {
    "FEED_OVERRUN: capture ring full at item seq="@ + decimal(seq as nat)
        + " — the consumer's window lagged reality and the feed declared on_overrun=fail"@
}

impl FeedShared {
    /// The ring is within its bound, its items are numbered in the order of
    /// capture, the counts agree with each other, and a loss that is not told
    /// yet has an item to be told with.
    pub open spec fn wf(&self) -> bool {
        &&& self.ring_cap >= 1
        &&& self.ring@.len() <= self.ring_cap
        &&& forall|i: int, j: int|
            0 <= i < j < self.ring@.len() ==> (#[trigger] self.ring@[i]).seq < (
            #[trigger] self.ring@[j]).seq
        &&& forall|i: int|
            0 <= i < self.ring@.len() ==> (#[trigger] self.ring@[i]).seq < self.captured
        &&& self.dropped_since_delivery <= self.overruns
        &&& self.ring@.len() == 0 ==> self.dropped_since_delivery == 0
        &&& self.overruns + self.ring@.len() <= self.captured
    }

    /// A feed that has captured nothing.
    pub fn new(ring_cap: u64, policy: OverrunPolicy) -> (r: Self)
        requires
            ring_cap >= 1,
        ensures
            r.wf(),
            r.ring@.len() == 0,
            r.ring_cap == ring_cap,
            r.policy == policy,
            !r.closed,
            !r.producer_done,
            r.failed is None,
            r.captured == 0,
            r.dropped_since_delivery == 0,
            r.overruns == 0,
            r.last_delivered_pts is None,
    {
        FeedShared {
            ring: VecDeque::new(),
            ring_cap,
            policy,
            closed: false,
            producer_done: false,
            failed: None,
            captured: 0,
            dropped_since_delivery: 0,
            overruns: 0,
            last_delivered_pts: None,
        }
    }

    /// Takes nothing more in.
    fn close(&mut self)
        ensures
            *final(self) == (FeedShared { closed: true, ..*old(self) }),
    {
        self.closed = true;
    }
}

/// `n + 1`, and 0 behind the greatest number.
pub open spec fn wrapped_next(n: u64) -> u64 {
    if n == u64::MAX {
        0
    } else {
        (n + 1) as u64
    }
}

/// The capture side of a feed.
#[derive(Debug, Clone, Copy, PartialEq, Eq, Structural)]
pub struct LiveFeedSink {
    pub max_items: Option<u64>,
}

/// An item that is taken in now takes the place of the oldest.
pub open spec fn drops(feed: FeedShared) -> bool {
    !feed.closed && feed.ring@.len() >= feed.ring_cap && feed.policy == OverrunPolicy::DropOldest
}

/// What comes of taking an item in: `more` is whether more is to be captured. A
/// closed feed stays as it is. A full one drops its oldest item or fails, as its
/// policy says.
pub open spec fn pushed(
    sink: LiveFeedSink,
    before: FeedShared,
    item: LiveFeedItem,
    after: FeedShared,
    more: bool,
) -> bool {
    let seq = before.captured;
    if before.closed {
        &&& !more
        &&& after == before
    } else if before.ring@.len() >= before.ring_cap && before.policy == OverrunPolicy::Fail {
        &&& !more
        &&& after.failed is Some
        &&& after.failed->0@ == overrun_text(seq)
        &&& after == (FeedShared {
            closed: true,
            failed: after.failed,
            captured: (seq + 1) as u64,
            ..before
        })
    } else {
        let lost: u64 = if drops(before) {
            1
        } else {
            0
        };
        &&& more == !sink.is_last(seq)
        &&& after.ring@ == (if drops(before) {
            before.ring@.drop_first()
        } else {
            before.ring@
        }).push((RingItem { item, seq }))
        &&& after == (FeedShared {
            ring: after.ring,
            producer_done: before.producer_done || sink.is_last(seq),
            captured: (seq + 1) as u64,
            overruns: (before.overruns + lost) as u64,
            dropped_since_delivery: (before.dropped_since_delivery + lost) as u64,
            ..before
        })
    }
}

impl LiveFeedSink {
    /// Whether the item with this number is the last one that the feed takes.
    pub open spec fn is_last(self, seq: u64) -> bool {
        self.max_items is Some && seq + 1 >= self.max_items->0
    }

    /// Takes a captured item in. `false` means that nothing more is to be
    /// captured: the feed is closed, or it fails for want of room, or this was
    /// the last item that it takes. `runtime_overruns` counts the items dropped
    /// over all feeds.
    pub fn push(&self, feed: &mut FeedShared, item: LiveFeedItem, runtime_overruns: &mut u64) -> (r:
        bool)
        requires
            old(feed).wf(),
            old(feed).closed || old(feed).captured < u64::MAX,
        ensures
            final(feed).wf(),
            pushed(*self, *old(feed), item, *final(feed), r),
            *final(runtime_overruns) == (if drops(*old(feed)) {
                wrapped_next(*old(runtime_overruns))
            } else {
                *old(runtime_overruns)
            }),
    {
        if feed.closed {
            return false;
        }
        let seq: u64 = feed.captured;
        feed.captured = seq + 1;
        let ghost before = feed.ring@;
        if feed.ring.len() as u64 >= feed.ring_cap {
            match feed.policy {
                OverrunPolicy::DropOldest => {
                    let _ = feed.ring.pop_front();
                    assert(feed.ring@ =~= before.drop_first());
                    feed.overruns = feed.overruns + 1;
                    feed.dropped_since_delivery = feed.dropped_since_delivery + 1;
                    *runtime_overruns = runtime_overruns.wrapping_add(1);
                },
                OverrunPolicy::Fail => {
                    let mut text = owned("FEED_OVERRUN: capture ring full at item seq=");
                    add_text(&mut text, &decimal_text(seq));
                    add_text(
                        &mut text,
                        " — the consumer's window lagged reality and the feed declared on_overrun=fail",
                    );
                    feed.failed = Some(text);
                    feed.close();
                    return false;
                },
            }
        }
        feed.ring.push_back(RingItem { item, seq });
        match self.max_items {
            Some(max) => {
                if seq + 1 >= max {
                    self.finish(feed);
                    return false;
                }
            },
            None => {},
        }
        true
    }

    /// The producer is done: what was captured is still delivered.
    pub fn finish(&self, feed: &mut FeedShared)
        ensures
            *final(feed) == (FeedShared { producer_done: true, ..*old(feed) }),
    {
        feed.producer_done = true;
    }

    /// The device failed: the feed ends with this error, and nothing more is
    /// taken in.
    pub fn fail(&self, feed: &mut FeedShared, message: String)
        ensures
            *final(feed) == (FeedShared { failed: Some(message), closed: true, ..*old(feed) }),
    {
        feed.failed = Some(message);
        feed.close();
    }

    /// Whether the feed takes nothing more in.
    pub fn is_closed(&self, feed: &FeedShared) -> (r: bool)
        ensures
            r == feed.closed,
    {
        feed.closed
    }
}

/// What the runtime holds of an open feed.
#[derive(Debug, Clone, Copy, PartialEq, Eq, Structural)]
pub struct LiveFeedHandle;

impl LiveFeedHandle {
    /// Closes the tap: nothing more is taken in, what was captured is still
    /// delivered.
    pub fn close(&self, feed: &mut FeedShared)
        ensures
            *final(feed) == (FeedShared { closed: true, ..*old(feed) }),
    {
        feed.close();
    }

    /// How many items of the feed were dropped.
    pub fn overruns(&self, feed: &FeedShared) -> (r: u64)
        ensures
            r == feed.overruns,
    {
        feed.overruns
    }
}

// ---------------------------------------------------------------------------
// Delivery
// ---------------------------------------------------------------------------

/// What was lost before an item.
#[derive(Debug, Clone, Copy, PartialEq, Eq, Structural)]
pub struct Gap {
    pub dropped: u64,
    /// The time since the item delivered before.
    pub duration_us: u64,
}

/// An item on its way to the consumer.
#[derive(Debug)]
pub struct Delivery {
    pub item: LiveFeedItem,
    pub seq: u64,
    pub gap: Option<Gap>,
}

/// What the delivery side does next.
#[derive(Debug)]
pub enum FeedStep {
    /// Ends the stream with this error.
    Fail(String),
    /// Delivers this item.
    Deliver(Delivery),
    /// Ends the stream.
    End,
    /// Waits for more.
    Wait,
}

/// What was lost before an item that is presented at `pts`.
pub open spec fn gap_before(dropped: u64, last_pts: Option<u64>, pts: u64) -> Option<Gap> {
    if dropped > 0 {
        Some(
            Gap {
                dropped,
                duration_us: match last_pts {
                    Some(prev) => if pts >= prev {
                        (pts - prev) as u64
                    } else {
                        0
                    },
                    None => 0,
                },
            },
        )
    } else {
        None
    }
}

/// What the delivery side does next with a feed, and what becomes of the feed.
pub open spec fn stepped(
    before: FeedShared,
    time_is_over: bool,
    after: FeedShared,
    step: FeedStep,
) -> bool {
    let closed = before.closed || time_is_over;
    match before.failed {
        Some(message) => {
            &&& step == FeedStep::Fail(message)
            &&& after == (FeedShared { closed, failed: None, ..before })
        },
        None => if before.ring@.len() > 0 {
            let first = before.ring@[0];
            &&& step == FeedStep::Deliver(
                Delivery {
                    item: first.item,
                    seq: first.seq,
                    gap: gap_before(
                        before.dropped_since_delivery,
                        before.last_delivered_pts,
                        first.item.pts_us,
                    ),
                },
            )
            &&& after.ring@ == before.ring@.drop_first()
            &&& after == (FeedShared {
                closed,
                ring: after.ring,
                dropped_since_delivery: 0,
                last_delivered_pts: Some(first.item.pts_us),
                ..before
            })
        } else {
            &&& step == (if before.producer_done || closed {
                FeedStep::End
            } else {
                FeedStep::Wait
            })
            &&& after == (FeedShared { closed, ..before })
        },
    }
}

impl FeedShared {
    /// What the delivery side does next. A feed whose time is over is closed
    /// first. A failure comes before the items that are left; an item that is
    /// there comes before the end.
    pub fn next_step(&mut self, time_is_over: bool) -> (r: FeedStep)
        requires
            old(self).wf(),
        ensures
            final(self).wf(),
            stepped(*old(self), time_is_over, *final(self), r),
    {
        if time_is_over {
            self.close();
        }
        if self.failed.is_some() {
            let mut failed: Option<String> = None;
            core::mem::swap(&mut self.failed, &mut failed);
            match failed {
                Some(message) => {
                    return FeedStep::Fail(message);
                },
                None => {},
            }
        }
        if self.ring.len() == 0 {
            return if self.producer_done || self.closed {
                FeedStep::End
            } else {
                FeedStep::Wait
            };
        }
        let ghost before = self.ring@;
        match self.ring.pop_front() {
            Some(entry) => {
                assert(self.ring@ =~= before.drop_first());
                let dropped: u64 = self.dropped_since_delivery;
                self.dropped_since_delivery = 0;
                let gap = if dropped > 0 {
                    let duration_us: u64 = match self.last_delivered_pts {
                        Some(prev) => entry.item.pts_us.saturating_sub(prev),
                        None => 0,
                    };
                    Some(Gap { dropped, duration_us })
                } else {
                    None
                };
                self.last_delivered_pts = Some(entry.item.pts_us);
                FeedStep::Deliver(Delivery { item: entry.item, seq: entry.seq, gap })
            },
            None => FeedStep::Wait,
        }
    }
}

/// A value of a stream's or an item's metadata.
#[derive(Debug, PartialEq, Eq)]
pub enum MetaValue {
    Integer(u64),
    Text(String),
    /// What was lost: the `dropped` items and the `duration_us`.
    Gap { dropped: u64, duration_us: u64 },
}

/// A value of metadata in the model.
pub ghost enum MetaView {
    Integer(u64),
    Text(Seq<char>),
    Gap(u64, u64),
}

impl View for MetaValue {
    type V = MetaView;

    open spec fn view(&self) -> MetaView {
        match *self {
            MetaValue::Integer(n) => MetaView::Integer(n),
            MetaValue::Text(s) => MetaView::Text(s@),
            MetaValue::Gap { dropped, duration_us } => MetaView::Gap(dropped, duration_us),
        }
    }
}

/// Metadata in the model.
pub open spec fn meta_view(m: Seq<(String, MetaValue)>) -> Seq<(Seq<char>, MetaView)> {
    Seq::new(m.len(), |i: int| (m[i].0@, m[i].1@))
}

/// The metadata of a delivered item.
pub open spec fn delivery_meta(d: Delivery) -> Seq<(Seq<char>, MetaView)> {
    let base = seq![
        ("seq"@, MetaView::Integer(d.seq)),
        ("pts_us"@, MetaView::Integer(d.item.pts_us)),
        ("capture_ts_us"@, MetaView::Integer(d.item.capture_ts_us)),
    ];
    match d.gap {
        Some(g) => base.push(("gap"@, MetaView::Gap(g.dropped, g.duration_us))),
        None => base,
    }
}

impl Delivery {
    /// The metadata of the item.
    pub fn meta(&self) -> (r: Vec<(String, MetaValue)>)
        ensures
            meta_view(r@) == delivery_meta(*self),
    {
        let mut out: Vec<(String, MetaValue)> = Vec::new();
        out.push((owned("seq"), MetaValue::Integer(self.seq)));
        out.push((owned("pts_us"), MetaValue::Integer(self.item.pts_us)));
        out.push((owned("capture_ts_us"), MetaValue::Integer(self.item.capture_ts_us)));
        match self.gap {
            Some(g) => {
                out.push(
                    (
                        owned("gap"),
                        MetaValue::Gap { dropped: g.dropped, duration_us: g.duration_us },
                    ),
                );
            },
            None => {},
        }
        assert(meta_view(out@) =~= delivery_meta(*self));
        out
    }
}

// ---------------------------------------------------------------------------
// Providers, and opening a feed
// ---------------------------------------------------------------------------

/// The capture backends by the references that they serve, in the order of
/// registration.
#[derive(Debug)]
pub struct LiveFeedProviders<P> {
    pub entries: Vec<(MediaUrn, P)>,
    /// How many items were dropped over all feeds.
    pub overruns_total: u64,
}

/// The text is a pattern of live-feed references.
pub open spec fn is_live_pattern(pattern: Seq<char>) -> bool {
    media_parse(pattern) is Some && tags_accept(
        media_parse(MEDIA_LIVE_FEED@)->0,
        media_parse(pattern)->0,
    )
}

/// The provider at `i` is the first that accepts the reference.
pub open spec fn first_provider<P>(
    entries: Seq<(MediaUrn, P)>,
    reference: Seq<TagView>,
    i: int,
) -> bool {
    &&& 0 <= i < entries.len()
    &&& tags_accept(entries[i].0@, reference)
    &&& forall|j: int| 0 <= j < i ==> !tags_accept((#[trigger] entries[j]).0@, reference)
}

/// The references of live feeds, and the deterministic one, read as markers.
pub proof fn lemma_live_constants()
    ensures
        media_parse(MEDIA_LIVE_FEED@) == Some(seq![marker("live"@)]),
        media_parse(MEDIA_LIVE_SYNTHETIC@) == Some(seq![marker("live"@), marker("synthetic"@)]),
        is_live_pattern(MEDIA_LIVE_SYNTHETIC@),
{
    reveal_strlit("media:");
    reveal_strlit(";");
    reveal_strlit("live");
    reveal_strlit("synthetic");
    reveal_strlit("media:live");
    reveal_strlit("media:live;synthetic");
    assert(MEDIA_LIVE_FEED@ =~= "media:"@ + "live"@);
    assert(MEDIA_LIVE_SYNTHETIC@ =~= "media:"@ + "live"@ + ";"@ + "synthetic"@);
    lemma_one_marker("live"@);
    lemma_two_markers("live"@, "synthetic"@);
    let pattern = seq![marker("live"@)];
    let instance = seq![marker("live"@), marker("synthetic"@)];
    lemma_lookup(instance, 0);
    assert(tags_accept(pattern, instance)) by {
        assert(pattern[0].key == instance[0].key);
    }
}

/// The error for a reference that is no media URN.
pub fn bad_reference(reference_urn: &str) -> (r: RuntimeError)
    ensures
        r.message() == "live-feed reference URN '"@ + reference_urn@
            + "' is not a valid media URN: malformed URN"@,
{
    let mut t = owned("live-feed reference URN '");
    add_text(&mut t, reference_urn);
    add_text(&mut t, "' is not a valid media URN: malformed URN");
    RuntimeError::Handler(t)
}

/// The error for a reference that no provider serves.
fn no_provider(reference_urn: &str) -> (r: RuntimeError)
    ensures
        r.message() == "no live-feed provider registered for reference '"@ + reference_urn@
            + "' — the runtime cannot open this feed"@,
{
    let mut t = owned("no live-feed provider registered for reference '");
    add_text(&mut t, reference_urn);
    add_text(&mut t, "' — the runtime cannot open this feed");
    RuntimeError::Handler(t)
}

impl<P> LiveFeedProviders<P> {
    /// Every provider serves live-feed references.
    pub open spec fn wf(&self) -> bool {
        forall|i: int|
            0 <= i < self.entries@.len() ==> tags_accept(
                media_parse(MEDIA_LIVE_FEED@)->0,
                (#[trigger] self.entries@[i]).0@,
            )
    }

    /// The deterministic feed alone.
    pub fn new(synthetic: P) -> (r: Self)
        ensures
            r.wf(),
            r.entries@.len() == 1,
            r.entries@[0].0@ == media_parse(MEDIA_LIVE_SYNTHETIC@)->0,
            r.entries@[0].1 == synthetic,
            r.overruns_total == 0,
    {
        let mut providers = LiveFeedProviders { entries: Vec::new(), overruns_total: 0 };
        proof {
            lemma_live_constants();
        }
        providers.register(MEDIA_LIVE_SYNTHETIC, synthetic);
        providers
    }

    /// Registers a provider behind the others. A pattern outside the live-feed
    /// references could never be reached and is not allowed.
    pub fn register(&mut self, pattern: &str, provider: P)
        requires
            old(self).wf(),
            is_live_pattern(pattern@),
        ensures
            final(self).wf(),
            final(self).overruns_total == old(self).overruns_total,
            final(self).entries@.len() == old(self).entries@.len() + 1,
            final(self).entries@.drop_last() == old(self).entries@,
            final(self).entries@.last().0@ == media_parse(pattern@)->0,
            final(self).entries@.last().1 == provider,
    {
        match MediaUrn::from_string(pattern) {
            Ok(urn) => {
                self.entries.push((urn, provider));
                assert(self.entries@.drop_last() =~= old(self).entries@);
            },
            Err(_) => {},
        }
    }

    /// The first provider that accepts a reference, by its place.
    pub fn find(&self, reference: &MediaUrn) -> (r: Option<usize>)
        ensures
            match r {
                Some(i) => first_provider(self.entries@, reference@, i as int),
                None => forall|i: int| !#[trigger] first_provider(self.entries@, reference@, i),
            },
    {
        let mut i: usize = 0;
        while i < self.entries.len()
            invariant
                i <= self.entries@.len(),
                forall|j: int|
                    0 <= j < i ==> !tags_accept((#[trigger] self.entries@[j]).0@, reference@),
            decreases self.entries@.len() - i,
        {
            if self.entries[i].0.accepts(reference) {
                return Some(i);
            }
            i = i + 1;
        }
        None
    }

    /// How many items were dropped over all feeds.
    pub fn overruns_total(&self) -> (r: u64)
        ensures
            r == self.overruns_total,
    {
        self.overruns_total
    }
}

/// How many items the ring has room for unless the selector says so.
pub const DEFAULT_RING_CAP: u64 = 64;

/// How many items wait for the consumer behind the ring.
pub const DELIVERY_CHANNEL_CAP: usize = 8;

/// The room of the ring: the parameter `ring`, at least 1, or the default.
pub open spec fn ring_room(selector: LiveFeedSelector) -> u64 {
    match selector.count_param("ring"@) {
        Some(n) => if n == 0 {
            1
        } else {
            n
        },
        None => DEFAULT_RING_CAP,
    }
}

/// A feed that can be opened: the provider that captures, the feed's state, and
/// its two ends.
#[derive(Debug)]
pub struct OpenedFeed {
    /// The provider's place.
    pub provider: usize,
    pub feed: FeedShared,
    pub sink: LiveFeedSink,
    pub handle: LiveFeedHandle,
}

/// A feed as it is opened: nothing was captured, lost or delivered, nobody is
/// done with it, and it has the room and the policy that the selector asks for.
pub open spec fn is_fresh(feed: FeedShared, selector: LiveFeedSelector) -> bool {
    &&& feed.wf()
    &&& feed.ring@.len() == 0
    &&& feed.ring_cap == ring_room(selector)
    &&& feed.policy == selector.on_overrun
    &&& !feed.closed
    &&& !feed.producer_done
    &&& feed.failed is None
    &&& feed.captured == 0
    &&& feed.dropped_since_delivery == 0
    &&& feed.overruns == 0
    &&& feed.last_delivered_pts is None
}

/// The state of a feed with what the selector asks for.
pub fn new_feed(selector: &LiveFeedSelector) -> (r: (FeedShared, LiveFeedSink))
    requires
        selector.wf(),
    ensures
        is_fresh(r.0, *selector),
        r.1.max_items == selector.stop.max_items,
{
    let ring_cap: u64 = match selector.get_count("ring") {
        Some(n) => if n == 0 {
            1
        } else {
            n
        },
        None => DEFAULT_RING_CAP,
    };
    (
        FeedShared::new(ring_cap, selector.on_overrun),
        LiveFeedSink { max_items: selector.stop.max_items },
    )
}

/// Finds the provider of a reference and sets the feed up. A reference that is
/// no media URN, and one that no provider serves, are errors.
pub fn open_feed<P>(
    providers: &LiveFeedProviders<P>,
    reference_urn: &str,
    selector: &LiveFeedSelector,
) -> (r: Result<OpenedFeed, RuntimeError>)
    requires
        selector.wf(),
    ensures
        match media_parse(reference_urn@) {
            None => r is Err && r->Err_0.message() == "live-feed reference URN '"@ + reference_urn@
                + "' is not a valid media URN: malformed URN"@,
            Some(reference) => match r {
                Ok(o) => {
                    &&& first_provider(providers.entries@, reference, o.provider as int)
                    &&& is_fresh(o.feed, *selector)
                    &&& o.sink.max_items == selector.stop.max_items
                },
                Err(e) => {
                    &&& forall|i: int|
                        !#[trigger] first_provider(providers.entries@, reference, i)
                    &&& e.message() == "no live-feed provider registered for reference '"@
                        + reference_urn@ + "' — the runtime cannot open this feed"@
                },
            },
        },
{
    let reference = match MediaUrn::from_string(reference_urn) {
        Ok(urn) => urn,
        Err(_) => {
            return Err(bad_reference(reference_urn));
        },
    };
    let provider: usize = match providers.find(&reference) {
        Some(i) => i,
        None => {
            return Err(no_provider(reference_urn));
        },
    };
    let (feed, sink) = new_feed(selector);
    Ok(OpenedFeed { provider, feed, sink, handle: LiveFeedHandle })
}

// ---------------------------------------------------------------------------
// The deterministic feed
// ---------------------------------------------------------------------------

/// The provider of the deterministic feed.
#[derive(Debug, Clone, Copy, PartialEq, Eq, Structural)]
pub struct SyntheticFeedProvider;

/// What the deterministic feed emits.
#[derive(Debug, Clone, Copy, PartialEq, Eq, Structural)]
pub struct SyntheticPlan {
    pub items: u64,
    pub interval_ms: u64,
    /// How long an item is, at least 1.
    pub item_bytes: u64,
}

/// The parameters of the deterministic feed, with their defaults.
pub open spec fn synthetic_plan(selector: LiveFeedSelector) -> SyntheticPlan {
    SyntheticPlan {
        items: match selector.count_param("items"@) {
            Some(n) => n,
            None => 10,
        },
        interval_ms: match selector.count_param("interval_ms"@) {
            Some(n) => n,
            None => 10,
        },
        item_bytes: match selector.count_param("item_bytes"@) {
            Some(n) => if n == 0 {
                1
            } else {
                n
            },
            None => 32,
        },
    }
}

impl SyntheticFeedProvider {
    /// The provider's name.
    pub fn name(&self) -> (r: &'static str)
        ensures
            r@ == "synthetic"@,
    {
        "synthetic"
    }

    /// What the feed emits.
    pub fn plan(&self, selector: &LiveFeedSelector) -> (r: SyntheticPlan)
        requires
            selector.wf(),
        ensures
            r == synthetic_plan(*selector),
    {
        let items: u64 = match selector.get_count("items") {
            Some(n) => n,
            None => 10,
        };
        let interval_ms: u64 = match selector.get_count("interval_ms") {
            Some(n) => n,
            None => 10,
        };
        let item_bytes: u64 = match selector.get_count("item_bytes") {
            Some(n) => if n == 0 {
                1
            } else {
                n
            },
            None => 32,
        };
        SyntheticPlan { items, interval_ms, item_bytes }
    }

    /// The metadata of the stream.
    pub fn stream_meta(&self, plan: &SyntheticPlan) -> (r: Vec<(String, MetaValue)>)
        ensures
            meta_view(r@) == seq![
                ("feed"@, MetaView::Text("synthetic"@)),
                ("interval_ms"@, MetaView::Integer(plan.interval_ms)),
            ],
    {
        let mut out: Vec<(String, MetaValue)> = Vec::new();
        out.push((owned("feed"), MetaValue::Text(owned("synthetic"))));
        out.push((owned("interval_ms"), MetaValue::Integer(plan.interval_ms)));
        assert(meta_view(out@) =~= seq![
            ("feed"@, MetaView::Text("synthetic"@)),
            ("interval_ms"@, MetaView::Integer(plan.interval_ms)),
        ]);
        out
    }

    /// The item with this number: its number modulo 256 over and over, at the
    /// time of a clock that goes by intervals from `start_us` on.
    pub fn item(&self, plan: &SyntheticPlan, i: u64, start_us: u64) -> (r: LiveFeedItem)
        requires
            plan.item_bytes <= usize::MAX,
            start_us + i * plan.interval_ms * 1000 <= u64::MAX,
        ensures
            r.payload@ == Seq::new(plan.item_bytes as nat, |k: int| (i % 256) as u8),
            r.pts_us == i * plan.interval_ms * 1000,
            r.capture_ts_us == start_us + i * plan.interval_ms * 1000,
    {
        let mut payload: Vec<u8> = Vec::new();
        let byte: u8 = (i % 256) as u8;
        let mut k: u64 = 0;
        while k < plan.item_bytes
            invariant
                k <= plan.item_bytes,
                payload@.len() == k,
                byte == (i % 256) as u8,
                forall|j: int| 0 <= j < k ==> payload@[j] == byte,
            decreases plan.item_bytes - k,
        {
            payload.push(byte);
            k = k + 1;
        }
        assert(payload@ =~= Seq::new(plan.item_bytes as nat, |k: int| (i % 256) as u8));
        assert(i * plan.interval_ms >= 0) by (nonlinear_arith);
        assert(i * plan.interval_ms <= i * plan.interval_ms * 1000) by (nonlinear_arith);
        let pts_us: u64 = i * plan.interval_ms * 1000;
        LiveFeedItem { payload, pts_us, capture_ts_us: start_us + pts_us }
    }
}

/// What the producer of the deterministic feed does next.
#[derive(Debug)]
pub enum SyntheticStep {
    /// Pushes this item, and waits so many milliseconds if it is taken.
    Push { item: LiveFeedItem, pause_ms: u64 },
    /// Is done.
    Finish,
    /// Cannot go on: the item or its time does not fit a number.
    OutOfRange,
}

/// The item with this number, and its times, fit the numbers that hold them.
pub open spec fn item_fits(plan: SyntheticPlan, i: u64, start_us: u64) -> bool {
    plan.item_bytes <= usize::MAX && start_us + i * plan.interval_ms * 1000 <= u64::MAX
}

impl SyntheticFeedProvider {
    /// What the producer does next, after `count` items: `going` says that the
    /// last of them was taken, or that there was none, and `closed` that the feed
    /// takes no more. It is done behind the last item of the plan, when an item
    /// was refused, and when the feed is closed.
    pub fn next_step(
        &self,
        plan: &SyntheticPlan,
        count: u64,
        going: bool,
        closed: bool,
        start_us: u64,
    ) -> (r: SyntheticStep)
        ensures
            r is Finish <==> count >= plan.items || !going || closed,
            r is OutOfRange <==> count < plan.items && going && !closed && !item_fits(
                *plan,
                count,
                start_us,
            ),
            r matches SyntheticStep::Push { item, pause_ms } ==> {
                &&& item.payload@ == Seq::new(
                    plan.item_bytes as nat,
                    |k: int| (count % 256) as u8,
                )
                &&& item.pts_us == count * plan.interval_ms * 1000
                &&& item.capture_ts_us == start_us + count * plan.interval_ms * 1000
                &&& pause_ms == plan.interval_ms
            },
    {
        if count >= plan.items || !going || closed {
            return SyntheticStep::Finish;
        }
        if plan.item_bytes > usize::MAX as u64 {
            return SyntheticStep::OutOfRange;
        }
        proof {
            let t = count * plan.interval_ms;
            assert(t >= 0) by (nonlinear_arith)
                requires
                    t == count * plan.interval_ms,
                    count >= 0,
                    plan.interval_ms >= 0,
            ;
        }
        let pts_us: u64 = match count.checked_mul(plan.interval_ms) {
            Some(ms) => match ms.checked_mul(1000) {
                Some(us) => us,
                None => {
                    return SyntheticStep::OutOfRange;
                },
            },
            None => {
                return SyntheticStep::OutOfRange;
            },
        };
        if start_us.checked_add(pts_us).is_none() {
            return SyntheticStep::OutOfRange;
        }
        SyntheticStep::Push {
            item: self.item(plan, count, start_us),
            pause_ms: plan.interval_ms,
        }
    }
}

// ---------------------------------------------------------------------------
// Laws
// ---------------------------------------------------------------------------

/// A feed over its life: its state, how many items were delivered and how many
/// were refused, and the sum of the losses that were told to the consumer.
pub ghost struct FeedLife {
    pub feed: FeedShared,
    pub delivered: nat,
    pub refused: nat,
    pub told: nat,
}

/// Every captured item was delivered, dropped, refused, or is in the ring; and
/// every dropped item was told or is to be told with the next delivery.
pub open spec fn accounted(life: FeedLife) -> bool {
    &&& life.feed.wf()
    &&& life.feed.captured == life.delivered + life.feed.overruns + life.refused
        + life.feed.ring@.len()
    &&& life.feed.overruns == life.told + life.feed.dropped_since_delivery
}

/// Law: a feed that has captured nothing is accounted for.
pub proof fn law_new_feed_is_accounted(feed: FeedShared)
    requires
        feed.wf(),
        feed.captured == 0,
        feed.overruns == 0,
    ensures
        accounted(FeedLife { feed, delivered: 0, refused: 0, told: 0 }),
{
}

/// Law: taking an item in keeps every item accounted for: it goes into the
/// ring, or, where the feed fails for want of room, is the one that is refused.
pub proof fn law_push_keeps_account(
    life: FeedLife,
    after: FeedShared,
    sink: LiveFeedSink,
    item: LiveFeedItem,
    more: bool,
)
    requires
        accounted(life),
        after.wf(),
        life.feed.closed || life.feed.captured < u64::MAX,
        pushed(sink, life.feed, item, after, more),
    ensures
        accounted(
            FeedLife {
                feed: after,
                refused: if !life.feed.closed && life.feed.ring@.len() >= life.feed.ring_cap
                    && life.feed.policy == OverrunPolicy::Fail {
                    life.refused + 1
                } else {
                    life.refused
                },
                ..life
            },
        ),
{
}

/// What the gap of an item tells.
pub open spec fn told_with(d: Delivery) -> nat {
    match d.gap {
        Some(g) => g.dropped as nat,
        None => 0,
    }
}

/// Law: delivering an item keeps every item accounted for, and its gap tells
/// exactly the losses since the delivery before; so what the consumer is told
/// adds up to all losses.
pub proof fn law_delivery_tells_every_loss(
    life: FeedLife,
    time_is_over: bool,
    after: FeedShared,
    d: Delivery,
)
    requires
        accounted(life),
        after.wf(),
        stepped(life.feed, time_is_over, after, FeedStep::Deliver(d)),
    ensures
        accounted(
            FeedLife {
                feed: after,
                delivered: life.delivered + 1,
                told: life.told + told_with(d),
                ..life
            },
        ),
        (d.gap is Some) == (life.feed.dropped_since_delivery > 0),
        life.told + told_with(d) == after.overruns,
{
}

// ---------------------------------------------------------------------------
// Laws of a whole stream
// ---------------------------------------------------------------------------

/// Something that happens to a feed.
pub ghost enum FeedMove {
    /// An item is captured; `more` is the answer.
    Push { sink: LiveFeedSink, item: LiveFeedItem, more: bool },
    /// The producer is done.
    Finish,
    /// The tap is closed.
    Close,
    /// The device fails.
    Fail { message: String },
    /// The delivery side takes a step.
    Step { time_is_over: bool, step: FeedStep },
}

/// What becomes of a feed to which something happens.
pub open spec fn moved(before: FeedShared, m: FeedMove, after: FeedShared) -> bool {
    match m {
        FeedMove::Push { sink, item, more } => (before.closed || before.captured < u64::MAX)
            && pushed(sink, before, item, after, more),
        FeedMove::Finish => after == (FeedShared { producer_done: true, ..before }),
        FeedMove::Close => after == (FeedShared { closed: true, ..before }),
        FeedMove::Fail { message } => after == (FeedShared {
            failed: Some(message),
            closed: true,
            ..before
        }),
        FeedMove::Step { time_is_over, step } => stepped(before, time_is_over, after, step),
    }
}

/// The states of a feed from its beginning on, with what happened in between.
pub open spec fn history(states: Seq<FeedShared>, ms: Seq<FeedMove>) -> bool {
    &&& states.len() == ms.len() + 1
    &&& states[0].captured == 0
    &&& forall|i: int| 0 <= i < states.len() ==> (#[trigger] states[i]).wf()
    &&& forall|i: int| 0 <= i < ms.len() ==> moved(states[i], #[trigger] ms[i], states[i + 1])
}

/// The numbers of the items that were delivered.
pub open spec fn delivered_seqs(ms: Seq<FeedMove>) -> Seq<u64>
    decreases ms.len(),
{
    if ms.len() == 0 {
        Seq::empty()
    } else {
        let before = delivered_seqs(ms.drop_last());
        match ms.last() {
            FeedMove::Step { step: FeedStep::Deliver(d), .. } => before.push(d.seq),
            _ => before,
        }
    }
}

/// How many losses the consumer was told of.
pub open spec fn told(ms: Seq<FeedMove>) -> nat
    decreases ms.len(),
{
    if ms.len() == 0 {
        0
    } else {
        told(ms.drop_last()) + (match ms.last() {
            FeedMove::Step { step: FeedStep::Deliver(d), .. } => told_with(d),
            _ => 0,
        })
    }
}

/// How often the count of losses over all feeds was advanced.
pub open spec fn losses_counted(states: Seq<FeedShared>, ms: Seq<FeedMove>) -> nat
    decreases ms.len(),
{
    if ms.len() == 0 {
        0
    } else {
        losses_counted(states.drop_last(), ms.drop_last()) + (if ms.last() is Push && drops(
            states[ms.len() - 1],
        ) {
            1nat
        } else {
            0
        })
    }
}

/// A history without what happened last.
proof fn lemma_history_before(states: Seq<FeedShared>, ms: Seq<FeedMove>)
    requires
        history(states, ms),
        ms.len() > 0,
    ensures
        history(states.drop_last(), ms.drop_last()),
        moved(states.drop_last().last(), ms.last(), states.last()),
{
    assert forall|i: int| 0 <= i < ms.drop_last().len() implies moved(
        states.drop_last()[i],
        #[trigger] ms.drop_last()[i],
        states.drop_last()[i + 1],
    ) by {
        assert(moved(states[i], ms[i], states[i + 1]));
    }
    let n = ms.len() - 1;
    assert(moved(states[n], ms[n], states[n + 1]));
}

/// Through its whole life every item of a feed that drops its oldest is
/// accounted for, and what was delivered was captured before what is in the
/// ring.
proof fn lemma_history(states: Seq<FeedShared>, ms: Seq<FeedMove>)
    requires
        history(states, ms),
        states[0].policy == OverrunPolicy::DropOldest,
    ensures
        states.last().policy == OverrunPolicy::DropOldest,
        accounted(
            FeedLife {
                feed: states.last(),
                delivered: delivered_seqs(ms).len(),
                refused: 0,
                told: told(ms),
            },
        ),
        losses_counted(states, ms) == states.last().overruns,
        forall|i: int, j: int|
            0 <= i < j < delivered_seqs(ms).len() ==> delivered_seqs(ms)[i] < delivered_seqs(
                ms,
            )[j],
        forall|i: int|
            0 <= i < delivered_seqs(ms).len() ==> (#[trigger] delivered_seqs(ms)[i])
                < states.last().captured,
        forall|i: int, k: int|
            0 <= i < delivered_seqs(ms).len() && 0 <= k < states.last().ring@.len() ==> (
            #[trigger] delivered_seqs(ms)[i]) < (#[trigger] states.last().ring@[k]).seq,
    decreases ms.len(),
{
    if ms.len() == 0 {
        assert(states.last() == states[0]);
    } else {
        lemma_history_before(states, ms);
        lemma_history(states.drop_last(), ms.drop_last());
        let a = states.drop_last().last();
        let b = states.last();
        assert(a == states[ms.len() - 1]);
        let seqs = delivered_seqs(ms.drop_last());
        match ms.last() {
            FeedMove::Push { sink, item, more } => {
                if !a.closed {
                    assert forall|i: int, k: int|
                        0 <= i < seqs.len() && 0 <= k < b.ring@.len() implies (
                    #[trigger] seqs[i]) < (#[trigger] b.ring@[k]).seq by {
                        if k < b.ring@.len() - 1 {
                            let at = if drops(a) {
                                k + 1
                            } else {
                                k
                            };
                            assert(b.ring@[k] == a.ring@[at]);
                        }
                    }
                }
            },
            FeedMove::Step { time_is_over, step } => {
                if step is Deliver {
                    assert(a.ring@.len() > 0 && step->Deliver_0.seq == a.ring@[0].seq);
                    assert forall|i: int, k: int|
                        0 <= i < delivered_seqs(ms).len() && 0 <= k < b.ring@.len() implies (
                    #[trigger] delivered_seqs(ms)[i]) < (#[trigger] b.ring@[k]).seq by {
                        assert(b.ring@[k] == a.ring@[k + 1]);
                        assert(a.ring@[0].seq < a.ring@[k + 1].seq);
                    }
                }
            },
            _ => {},
        }
    }
}

/// Law: of a feed that drops its oldest items, a stream that has come to its end
/// has delivered every captured item or told of its loss. What was delivered was
/// captured in that order, and each loss was counted once over all feeds.
pub proof fn law_ended_stream_is_accounted(states: Seq<FeedShared>, ms: Seq<FeedMove>)
    requires
        history(states, ms),
        states[0].policy == OverrunPolicy::DropOldest,
        ms.len() > 0,
        ms.last() matches FeedMove::Step { step: FeedStep::End, .. },
    ensures
        delivered_seqs(ms).len() + states.last().overruns == states.last().captured,
        told(ms) == states.last().overruns,
        losses_counted(states, ms) == states.last().overruns,
        forall|i: int, j: int|
            0 <= i < j < delivered_seqs(ms).len() ==> delivered_seqs(ms)[i] < delivered_seqs(
                ms,
            )[j],
        forall|i: int|
            0 <= i < ms.len() ==> ((#[trigger] ms[i]) matches FeedMove::Step {
                step: FeedStep::Deliver(Delivery { gap: Some(g), .. }),
                ..
            } ==> g.dropped > 0),
{
    lemma_history(states, ms);
    lemma_history_before(states, ms);
    assert forall|i: int| 0 <= i < ms.len() implies ((#[trigger] ms[i]) matches FeedMove::Step {
        step: FeedStep::Deliver(Delivery { gap: Some(g), .. }),
        ..
    } ==> g.dropped > 0) by {
        assert(moved(states[i], ms[i], states[i + 1]));
    }
}

/// Whether a feed takes the next item into its ring. It does not where it is
/// closed, or is full and fails rather than drops.
pub open spec fn takes(feed: FeedShared) -> bool {
    !feed.closed && (feed.ring@.len() < feed.ring_cap || feed.policy
        == OverrunPolicy::DropOldest)
}

/// The items that were taken in.
pub open spec fn taken_items(states: Seq<FeedShared>, ms: Seq<FeedMove>) -> Seq<LiveFeedItem>
    decreases ms.len(),
{
    if ms.len() == 0 {
        Seq::empty()
    } else {
        let before = taken_items(states.drop_last(), ms.drop_last());
        match ms.last() {
            FeedMove::Push { item, .. } => if takes(states[ms.len() - 1]) {
                before.push(item)
            } else {
                before
            },
            _ => before,
        }
    }
}

/// The items that were delivered.
pub open spec fn delivered_items(ms: Seq<FeedMove>) -> Seq<LiveFeedItem>
    decreases ms.len(),
{
    if ms.len() == 0 {
        Seq::empty()
    } else {
        let before = delivered_items(ms.drop_last());
        match ms.last() {
            FeedMove::Step { step: FeedStep::Deliver(d), .. } => before.push(d.item),
            _ => before,
        }
    }
}

/// The items of a ring.
pub open spec fn ring_items(feed: FeedShared) -> Seq<LiveFeedItem> {
    Seq::new(feed.ring@.len(), |k: int| feed.ring@[k].item)
}

/// Law: as long as a feed has dropped nothing, what was delivered and then what
/// is in its ring are all the items that were taken in, in that order.
pub proof fn law_nothing_is_lost_without_an_overrun(states: Seq<FeedShared>, ms: Seq<FeedMove>)
    requires
        history(states, ms),
        states.last().overruns == 0,
    ensures
        delivered_items(ms) + ring_items(states.last()) == taken_items(states, ms),
    decreases ms.len(),
{
    let b = states.last();
    if ms.len() == 0 {
        assert(b == states[0]);
        assert(b.ring@.len() == 0);
        assert(delivered_items(ms) + ring_items(b) =~= taken_items(states, ms));
    } else {
        lemma_history_before(states, ms);
        let earlier = states.drop_last();
        let said = ms.drop_last();
        let a = earlier.last();
        assert(a == states[ms.len() - 1]);
        assert(a.wf() && b.wf());
        assert(a.overruns == 0);
        law_nothing_is_lost_without_an_overrun(earlier, said);
        match ms.last() {
            FeedMove::Push { sink, item, more } => {
                if takes(a) {
                    assert(ring_items(b) =~= ring_items(a).push(item));
                    assert(delivered_items(said) + ring_items(a).push(item) =~= (delivered_items(
                        said,
                    ) + ring_items(a)).push(item));
                }
            },
            FeedMove::Step { time_is_over, step } => {
                if step is Deliver {
                    assert(ring_items(b) =~= ring_items(a).drop_first());
                    assert(delivered_items(said).push(a.ring@[0].item) + ring_items(
                        a,
                    ).drop_first() =~= delivered_items(said) + ring_items(a));
                }
            },
            _ => {},
        }
    }
}

/// Law: a stream that has come to its end without an overrun has delivered
/// exactly the items that were taken in, in that order.
pub proof fn law_stream_without_overrun_delivers_all(states: Seq<FeedShared>, ms: Seq<FeedMove>)
    requires
        history(states, ms),
        ms.len() > 0,
        ms.last() matches FeedMove::Step { step: FeedStep::End, .. },
        states.last().overruns == 0,
    ensures
        delivered_items(ms) == taken_items(states, ms),
{
    law_nothing_is_lost_without_an_overrun(states, ms);
    lemma_history_before(states, ms);
    assert(states.last().ring@.len() == 0);
    assert(delivered_items(ms) + ring_items(states.last()) =~= delivered_items(ms));
}

/// Something after which a feed may end: the producer is done, the feed is
/// closed or fails, or its time is over.
pub open spec fn ends_feed(m: FeedMove) -> bool {
    match m {
        FeedMove::Push { more, .. } => !more,
        FeedMove::Finish => true,
        FeedMove::Close => true,
        FeedMove::Fail { .. } => true,
        FeedMove::Step { time_is_over, .. } => time_is_over,
    }
}

/// A feed that was open, and is closed or done, came to that by something that
/// ends a feed.
proof fn lemma_open_until_ended(states: Seq<FeedShared>, ms: Seq<FeedMove>, n: int)
    requires
        history(states, ms),
        !states[0].closed,
        !states[0].producer_done,
        0 <= n <= ms.len(),
        forall|j: int| 0 <= j < n ==> !ends_feed(#[trigger] ms[j]),
    ensures
        !states[n].closed,
        !states[n].producer_done,
    decreases n,
{
    if n > 0 {
        lemma_open_until_ended(states, ms, n - 1);
        assert(moved(states[n - 1], ms[n - 1], states[n]));
        assert(!ends_feed(ms[n - 1]));
    }
}

/// Law: a stream does not end before its time. However early the delivery side
/// looks at a feed that was just opened, it finds an item or waits, until the
/// producer is done, the feed is closed or fails, or its time is over.
pub proof fn law_open_feed_does_not_end(
    selector: LiveFeedSelector,
    states: Seq<FeedShared>,
    ms: Seq<FeedMove>,
    i: int,
)
    requires
        is_fresh(states[0], selector),
        history(states, ms),
        0 <= i < ms.len(),
        forall|j: int| 0 <= j <= i ==> !ends_feed(#[trigger] ms[j]),
    ensures
        ms[i] matches FeedMove::Step { step, .. } ==> !(step is End),
{
    lemma_open_until_ended(states, ms, i);
    assert(moved(states[i], ms[i], states[i + 1]));
    assert(!ends_feed(ms[i]));
}

/// Law: a closed feed stays closed. Nothing that is captured later changes it,
/// every such item is refused, and closing it again changes nothing; what it
/// holds leaves only by delivery.
pub proof fn law_closed_feed_takes_nothing(
    states: Seq<FeedShared>,
    ms: Seq<FeedMove>,
    from: int,
    i: int,
)
    requires
        history(states, ms),
        0 <= from <= i < ms.len(),
        states[from].closed,
    ensures
        states[i].closed && states[i + 1].closed,
        states[i + 1].captured == states[from].captured,
        states[i + 1].overruns == states[from].overruns,
        ms[i] matches FeedMove::Push { more, .. } ==> !more && states[i + 1] == states[i],
        ms[i] is Close ==> states[i + 1] == states[i],
        !(ms[i] is Step) ==> states[i + 1].ring == states[i].ring,
    decreases i - from,
{
    if from < i {
        law_closed_feed_takes_nothing(states, ms, from, i - 1);
    }
    assert(moved(states[i], ms[i], states[i + 1]));
}

/// Law: the items are delivered in the order of capture: the next item of the
/// ring comes before every other, and all of them before any that is captured
/// later.
pub proof fn law_delivery_keeps_capture_order(feed: FeedShared, i: int)
    requires
        feed.wf(),
        0 < i < feed.ring@.len(),
    ensures
        feed.ring@[0].seq < feed.ring@[i].seq < feed.captured,
{
}

/// Law: a delivery tells of a gap exactly where something was lost: how much, and
/// how long it lasts from the last delivery to this one, if there was one.
pub proof fn law_gap_spans_what_was_lost(dropped: u64, last_pts: Option<u64>, pts: u64)
    ensures
        gap_before(dropped, last_pts, pts) is Some <==> dropped > 0,
        gap_before(dropped, last_pts, pts) matches Some(g) ==> {
            &&& g.dropped == dropped
            &&& last_pts is None ==> g.duration_us == 0
            &&& last_pts matches Some(prev) ==> {
                &&& pts >= prev ==> prev + g.duration_us == pts
                &&& pts < prev ==> g.duration_us == 0
            }
        },
{
}

/// The value of the first entry with this name.
pub open spec fn meta_of(m: Seq<(Seq<char>, MetaView)>, name: Seq<char>) -> Option<MetaView>
    decreases m.len(),
{
    if m.len() == 0 {
        None
    } else if m[0].0 == name {
        Some(m[0].1)
    } else {
        meta_of(m.drop_first(), name)
    }
}

/// Law: the metadata of a delivered item tell its number and its two times, each
/// under its own name, and what was lost before it exactly where something was.
pub proof fn law_delivery_tells_number_and_times(d: Delivery)
    ensures
        meta_of(delivery_meta(d), "seq"@) == Some(MetaView::Integer(d.seq)),
        meta_of(delivery_meta(d), "pts_us"@) == Some(MetaView::Integer(d.item.pts_us)),
        meta_of(delivery_meta(d), "capture_ts_us"@) == Some(
            MetaView::Integer(d.item.capture_ts_us),
        ),
        d.gap is None ==> meta_of(delivery_meta(d), "gap"@) is None,
        d.gap matches Some(g) ==> meta_of(delivery_meta(d), "gap"@) == Some(
            MetaView::Gap(g.dropped, g.duration_us),
        ),
{
    reveal_strlit("seq");
    reveal_strlit("pts_us");
    reveal_strlit("capture_ts_us");
    reveal_strlit("gap");
    assert("seq"@.len() != "pts_us"@.len());
    assert("seq"@.len() != "capture_ts_us"@.len());
    assert("pts_us"@.len() != "capture_ts_us"@.len());
    assert("gap"@[0] != "seq"@[0]);
    assert("gap"@.len() != "pts_us"@.len());
    assert("gap"@.len() != "capture_ts_us"@.len());
    reveal_with_fuel(meta_of, 5);
    let m = delivery_meta(d);
    assert(m.drop_first()[0] == m[1]);
    assert(m.drop_first().drop_first()[0] == m[2]);
    if d.gap is Some {
        assert(m.drop_first().drop_first().drop_first()[0] == m[3]);
    }
}

/// Law: the deterministic feed emits as many items, as long and as far apart as
/// the selector says, each by its own parameter; never items of no length.
pub proof fn law_synthetic_feed_follows_its_parameters(
    selector: LiveFeedSelector,
    items: u64,
    interval_ms: u64,
    item_bytes: u64,
)
    requires
        selector.params@.dom().contains("items"@),
        selector.params@["items"@] == ParamValue::Count(items),
        selector.params@.dom().contains("interval_ms"@),
        selector.params@["interval_ms"@] == ParamValue::Count(interval_ms),
        selector.params@.dom().contains("item_bytes"@),
        selector.params@["item_bytes"@] == ParamValue::Count(item_bytes),
    ensures
        synthetic_plan(selector).items == items,
        synthetic_plan(selector).interval_ms == interval_ms,
        item_bytes > 0 ==> synthetic_plan(selector).item_bytes == item_bytes,
        synthetic_plan(selector).item_bytes > 0,
{
}

/// Law: the ring has the room that the selector names, and never none.
pub proof fn law_ring_has_the_room_that_is_named(selector: LiveFeedSelector, room: u64)
    requires
        selector.params@.dom().contains("ring"@),
        selector.params@["ring"@] == ParamValue::Count(room),
    ensures
        room > 0 ==> ring_room(selector) == room,
        ring_room(selector) > 0,
{
}

/// Law: the references of live feeds are the media URNs with the tag `live`,
/// whatever other tags they have.
pub proof fn law_live_references_have_their_tag(pattern: Seq<char>)
    ensures
        is_live_pattern(pattern) <==> (media_parse(pattern) matches Some(ts) && has_key(
            ts,
            "live"@,
        )),
{
    lemma_live_constants();
    if media_parse(pattern) is Some {
        let ts = media_parse(pattern)->0;
        let p = seq![marker("live"@)];
        law_parsed_tags_are_sorted("media"@, pattern);
        law_each_tag_is_met(p, ts);
        assert(p[0].value is None && p[0].key == "live"@);
    }
}

/// Law: a feed with a limit asks for more exactly while fewer items than that
/// were captured, and is done with the last; one without a limit always asks for
/// more.
pub proof fn law_limit_ends_the_feed(
    sink: LiveFeedSink,
    before: FeedShared,
    item: LiveFeedItem,
    after: FeedShared,
    more: bool,
)
    requires
        before.captured < u64::MAX,
        pushed(sink, before, item, after, more),
        takes(before),
    ensures
        after.captured == before.captured + 1,
        sink.max_items matches Some(n) ==> {
            &&& more <==> after.captured < n
            &&& after.captured >= n ==> after.producer_done
            &&& after.captured < n ==> after.producer_done == before.producer_done
        },
        sink.max_items is None ==> more && after.producer_done == before.producer_done,
{
}

/// Law: a failure is told once, ahead of what is in the ring; without one none is
/// told.
pub proof fn law_failure_is_told_once(
    first: FeedShared,
    over: bool,
    second: FeedShared,
    told: FeedStep,
    later: bool,
    third: FeedShared,
    next: FeedStep,
)
    requires
        stepped(first, over, second, told),
        stepped(second, later, third, next),
    ensures
        told is Fail <==> first.failed is Some,
        first.failed matches Some(message) ==> told == FeedStep::Fail(message),
        told is Fail ==> !(next is Fail) && second.ring@ == first.ring@,
{
}

/// Law: a feed whose time is over is closed from then on; what is in its ring is
/// delivered all the same, and then it ends. Otherwise it stays as it is.
pub proof fn law_time_closes_the_feed(
    before: FeedShared,
    time_is_over: bool,
    after: FeedShared,
    step: FeedStep,
)
    requires
        stepped(before, time_is_over, after, step),
        before.failed is None,
    ensures
        time_is_over ==> after.closed,
        !time_is_over ==> after.closed == before.closed,
        before.ring@.len() > 0 ==> step is Deliver,
        before.ring@.len() == 0 && time_is_over ==> step is End,
        before.ring@.len() == 0 && !time_is_over && !before.closed && !before.producer_done
            ==> step is Wait,
{
}

/// Law: an item that is taken in stands last in the ring, under the next number.
/// A full ring loses its oldest item for it, and counts the loss; otherwise
/// nothing is lost. The other items stay, in their order.
pub proof fn law_full_ring_loses_its_oldest(
    sink: LiveFeedSink,
    before: FeedShared,
    item: LiveFeedItem,
    after: FeedShared,
    more: bool,
)
    requires
        before.wf(),
        before.captured < u64::MAX,
        takes(before),
        pushed(sink, before, item, after, more),
    ensures
        after.ring@.last() == (RingItem { item, seq: before.captured }),
        before.ring@.len() < before.ring_cap ==> {
            &&& after.ring@.len() == before.ring@.len() + 1
            &&& after.overruns == before.overruns
            &&& forall|i: int|
                0 <= i < before.ring@.len() ==> #[trigger] after.ring@[i] == before.ring@[i]
        },
        before.ring@.len() == before.ring_cap ==> {
            &&& after.ring@.len() == before.ring@.len()
            &&& after.overruns == before.overruns + 1
            &&& after.dropped_since_delivery == before.dropped_since_delivery + 1
            &&& forall|i: int|
                0 <= i < before.ring@.len() - 1 ==> #[trigger] after.ring@[i] == before.ring@[i + 1]
        },
{
}

} // verus!
