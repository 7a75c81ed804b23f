//! The state of every request that is under way: one entry from registration
//! to termination, its flow counters, and a bounded list of what has ended.
//!
//! Times are milliseconds on one clock; the caller reads the clock. The caller
//! also keeps the channel through which an outside request is answered, and
//! names it here by a number.

use crate::bifaci::frame::{message_id_text, Frame, FrameType, MessageId};
use crate::bifaci::stats::{nonzero, CountMap};
use crate::text::{
    add_text, clone_opt, lemma_less_strict, lemma_less_trans, less, opt_text, owned, same_opt,
    text_less,
};
use vstd::prelude::*;

verus! {

broadcast use vstd::string::group_string_axioms;

/// The key of a routed request: its routing identity, then its own.
pub type RequestKey = (MessageId, MessageId);

/// Where a request came from and where it goes, as master indices.
#[derive(Debug, Clone, Copy, PartialEq, Eq, Structural)]
pub struct RoutingEntry {
    /// The master that it came from; `None` for an outside caller.
    pub source_master_idx: Option<usize>,
    /// The master that it was sent to.
    pub destination_master_idx: usize,
}

/// How a request ended.
#[derive(Debug, Clone, Copy, PartialEq, Eq, Structural)]
pub enum TerminalKind {
    End,
    Error,
    Cancelled,
    MasterDied,
}

/// How many ways there are to end.
pub const TERMINAL_KINDS: usize = 4;

impl TerminalKind {
    /// The name of the kind.
    pub open spec fn name(self) -> Seq<char> {
        match self {
            TerminalKind::End => "end"@,
            TerminalKind::Error => "err"@,
            TerminalKind::Cancelled => "cancelled"@,
            TerminalKind::MasterDied => "master_died"@,
        }
    }

    /// The kind's place in the order of the names.
    pub open spec fn place(self) -> int {
        match self {
            TerminalKind::Cancelled => 0,
            TerminalKind::End => 1,
            TerminalKind::Error => 2,
            TerminalKind::MasterDied => 3,
        }
    }

    /// The kind at a place.
    pub open spec fn nth(i: int) -> TerminalKind {
        if i == 0 {
            TerminalKind::Cancelled
        } else if i == 1 {
            TerminalKind::End
        } else if i == 2 {
            TerminalKind::Error
        } else {
            TerminalKind::MasterDied
        }
    }

    /// The name of the kind.
    pub fn as_str(&self) -> (r: &'static str)
        ensures
            r@ == self.name(),
    {
        match self {
            TerminalKind::End => "end",
            TerminalKind::Error => "err",
            TerminalKind::Cancelled => "cancelled",
            TerminalKind::MasterDied => "master_died",
        }
    }

    /// The kind's place in the order of the names.
    pub fn index(self) -> (r: usize)
        ensures
            r == self.place(),
            r < TERMINAL_KINDS,
    {
        match self {
            TerminalKind::Cancelled => 0,
            TerminalKind::End => 1,
            TerminalKind::Error => 2,
            TerminalKind::MasterDied => 3,
        }
    }

    /// The kind at a place.
    fn at(i: usize) -> (r: TerminalKind)
        requires
            i < TERMINAL_KINDS,
        ensures
            r == TerminalKind::nth(i as int),
    {
        match i {
            0 => TerminalKind::Cancelled,
            1 => TerminalKind::End,
            2 => TerminalKind::Error,
            _ => TerminalKind::MasterDied,
        }
    }
}

/// How far a live request has come.
#[derive(Debug, Clone, Copy, PartialEq, Eq, Structural)]
pub enum RequestPhase {
    /// Registered; no flow frame was seen yet.
    Created,
    /// At least one flow frame was seen.
    Streaming,
}

/// Which way a frame goes, seen from here.
#[derive(Debug, Clone, Copy, PartialEq, Eq, Structural)]
pub enum FrameDirection {
    Inbound,
    Outbound,
}

/// What went through one stream.
#[derive(Debug, Clone, Copy, PartialEq, Eq, Structural)]
pub struct StreamFlowStats {
    pub frames_in: u64,
    pub frames_out: u64,
    pub bytes_in: u64,
    pub bytes_out: u64,
    pub chunks_in: u64,
    pub chunks_out: u64,
    /// Credits that were granted, less the chunks that used them.
    pub credit_outstanding: i64,
    /// The stream was announced without a length.
    pub unbounded: bool,
    /// The end of the stream was seen.
    pub ended: bool,
}

impl StreamFlowStats {
    /// Nothing went through.
    pub open spec fn zero() -> StreamFlowStats {
        StreamFlowStats {
            frames_in: 0,
            frames_out: 0,
            bytes_in: 0,
            bytes_out: 0,
            chunks_in: 0,
            chunks_out: 0,
            credit_outstanding: 0,
            unbounded: false,
            ended: false,
        }
    }
}

impl Default for StreamFlowStats {
    fn default() -> (r: Self)
        ensures
            r == StreamFlowStats::zero(),
    {
        StreamFlowStats {
            frames_in: 0,
            frames_out: 0,
            bytes_in: 0,
            bytes_out: 0,
            chunks_in: 0,
            chunks_out: 0,
            credit_outstanding: 0,
            unbounded: false,
            ended: false,
        }
    }
}

/// What the credit of a stream changes by with a frame: a chunk that comes in
/// uses one, a CREDIT frame brings its count.
pub open spec fn credit_change(direction: FrameDirection, frame: Frame) -> int {
    if frame.frame_type == FrameType::Chunk && direction == FrameDirection::Inbound {
        -1
    } else if frame.frame_type == FrameType::Credit {
        match frame.credits {
            Some(n) => n as i64 as int,
            None => 0,
        }
    } else {
        0
    }
}

/// The stream's counters after a frame.
pub open spec fn stats_after(
    s: StreamFlowStats,
    direction: FrameDirection,
    frame: Frame,
) -> StreamFlowStats {
    let inbound = direction == FrameDirection::Inbound;
    let chunk: int = if frame.frame_type == FrameType::Chunk {
        1
    } else {
        0
    };
    let bytes = frame.payload_len() as int;
    StreamFlowStats {
        frames_in: if inbound {
            (s.frames_in + 1) as u64
        } else {
            s.frames_in
        },
        frames_out: if inbound {
            s.frames_out
        } else {
            (s.frames_out + 1) as u64
        },
        bytes_in: if inbound {
            (s.bytes_in + bytes) as u64
        } else {
            s.bytes_in
        },
        bytes_out: if inbound {
            s.bytes_out
        } else {
            (s.bytes_out + bytes) as u64
        },
        chunks_in: if inbound {
            (s.chunks_in + chunk) as u64
        } else {
            s.chunks_in
        },
        chunks_out: if inbound {
            s.chunks_out
        } else {
            (s.chunks_out + chunk) as u64
        },
        credit_outstanding: (s.credit_outstanding + credit_change(direction, frame)) as i64,
        unbounded: s.unbounded || (frame.frame_type == FrameType::StreamStart && frame.unbounded),
        ended: s.ended || frame.frame_type == FrameType::StreamEnd,
    }
}

/// The counters of one stream of a request.
#[derive(Debug)]
pub struct StreamSlot {
    /// The stream; `None` for frames of the request itself.
    pub stream_id: Option<String>,
    pub stats: StreamFlowStats,
}

/// A sum over the streams of a request.
pub open spec fn stream_sum(s: Seq<StreamSlot>, f: spec_fn(StreamFlowStats) -> u64) -> nat
    decreases s.len(),
{
    if s.len() == 0 {
        0
    } else {
        stream_sum(s.drop_last(), f) + f(s.last().stats) as nat
    }
}

proof fn lemma_stream_sum_update(
    s: Seq<StreamSlot>,
    f: spec_fn(StreamFlowStats) -> u64,
    i: int,
    slot: StreamSlot,
)
    requires
        0 <= i < s.len(),
    ensures
        stream_sum(s.update(i, slot), f) == stream_sum(s, f) - f(s[i].stats) + f(slot.stats),
        f(s[i].stats) <= stream_sum(s, f),
    decreases s.len(),
{
    if i == s.len() - 1 {
        assert(s.update(i, slot).drop_last() =~= s.drop_last());
    } else {
        assert(s.update(i, slot).drop_last() =~= s.drop_last().update(i, slot));
        lemma_stream_sum_update(s.drop_last(), f, i, slot);
    }
}

proof fn lemma_stream_sum_push(
    s: Seq<StreamSlot>,
    f: spec_fn(StreamFlowStats) -> u64,
    slot: StreamSlot,
)
    ensures
        stream_sum(s.push(slot), f) == stream_sum(s, f) + f(slot.stats),
{
    assert(s.push(slot).drop_last() =~= s);
}

proof fn lemma_stream_sum_part(s: Seq<StreamSlot>, f: spec_fn(StreamFlowStats) -> u64, n: int)
    requires
        0 <= n <= s.len(),
    ensures
        stream_sum(s.subrange(0, n), f) <= stream_sum(s, f),
    decreases s.len(),
{
    if n < s.len() {
        lemma_stream_sum_part(s.drop_last(), f, n);
        assert(s.drop_last().subrange(0, n) =~= s.subrange(0, n));
    } else {
        assert(s.subrange(0, n) =~= s);
    }
}

/// The frames that came in.
pub open spec fn frames_in() -> spec_fn(StreamFlowStats) -> u64 {
    |s: StreamFlowStats| s.frames_in
}

/// The frames that went out.
pub open spec fn frames_out() -> spec_fn(StreamFlowStats) -> u64 {
    |s: StreamFlowStats| s.frames_out
}

/// The bytes that came in.
pub open spec fn bytes_in() -> spec_fn(StreamFlowStats) -> u64 {
    |s: StreamFlowStats| s.bytes_in
}

/// The bytes that went out.
pub open spec fn bytes_out() -> spec_fn(StreamFlowStats) -> u64 {
    |s: StreamFlowStats| s.bytes_out
}

/// Everything that is known of one request that is under way.
#[derive(Debug)]
pub struct RequestState {
    pub routing: RoutingEntry,
    /// The master that the answer goes back to; `None` for an outside caller.
    pub origin: Option<usize>,
    /// The number of the channel that an outside caller is answered through.
    pub external_channel: Option<u64>,
    /// Whether a cartridge asked for it.
    pub is_peer: bool,
    /// The cap that was asked for, where it is known.
    pub cap_urn: Option<String>,
    /// The peer calls made under this request.
    pub children: Vec<RequestKey>,
    pub phase: RequestPhase,
    pub streams: Vec<StreamSlot>,
    pub created_at: u64,
    pub last_activity: u64,
}

/// Some stream has this identity.
pub open spec fn has_stream(s: Seq<StreamSlot>, id: Option<Seq<char>>) -> bool {
    exists|i: int| 0 <= i < s.len() && opt_text((#[trigger] s[i]).stream_id) == id
}

/// The counters of a stream; zero where it was not seen yet.
pub open spec fn stream_stats(s: Seq<StreamSlot>, id: Option<Seq<char>>) -> StreamFlowStats
    decreases s.len(),
{
    if s.len() == 0 {
        StreamFlowStats::zero()
    } else if opt_text(s.last().stream_id) == id {
        s.last().stats
    } else {
        stream_stats(s.drop_last(), id)
    }
}

proof fn lemma_stream_stats(s: Seq<StreamSlot>, i: int)
    requires
        0 <= i < s.len(),
        forall|i: int, j: int|
            0 <= i < j < s.len() ==> opt_text((#[trigger] s[i]).stream_id) != opt_text(
                (#[trigger] s[j]).stream_id,
            ),
    ensures
        stream_stats(s, opt_text(s[i].stream_id)) == s[i].stats,
    decreases s.len(),
{
    if i < s.len() - 1 {
        assert(opt_text(s[i].stream_id) != opt_text(s[s.len() - 1].stream_id));
        lemma_stream_stats(s.drop_last(), i);
        assert(s.drop_last()[i] == s[i]);
    }
}

proof fn lemma_no_stream_stats(s: Seq<StreamSlot>, id: Option<Seq<char>>)
    requires
        !has_stream(s, id),
    ensures
        stream_stats(s, id) == StreamFlowStats::zero(),
    decreases s.len(),
{
    if s.len() > 0 {
        assert(opt_text(s[s.len() - 1].stream_id) != id);
        assert(!has_stream(s.drop_last(), id)) by {
            if has_stream(s.drop_last(), id) {
                let k = choose|k: int|
                    0 <= k < s.drop_last().len() && opt_text(
                        (#[trigger] s.drop_last()[k]).stream_id,
                    ) == id;
                assert(opt_text(s[k].stream_id) == id);
            }
        }
        lemma_no_stream_stats(s.drop_last(), id);
    }
}

impl RequestState {
    /// No stream occurs twice; no more chunks than frames were counted; each
    /// total fits a counter.
    pub open spec fn wf(&self) -> bool {
        let s = self.streams@;
        &&& forall|i: int, j: int|
            0 <= i < j < s.len() ==> opt_text((#[trigger] s[i]).stream_id) != opt_text(
                (#[trigger] s[j]).stream_id,
            )
        &&& forall|i: int|
            0 <= i < s.len() ==> (#[trigger] s[i]).stats.chunks_in <= s[i].stats.frames_in
                && s[i].stats.chunks_out <= s[i].stats.frames_out
        &&& stream_sum(s, frames_in()) <= u64::MAX
        &&& stream_sum(s, frames_out()) <= u64::MAX
        &&& stream_sum(s, bytes_in()) <= u64::MAX
        &&& stream_sum(s, bytes_out()) <= u64::MAX
    }

    /// There is room in the counters for one more frame.
    pub open spec fn room(&self, direction: FrameDirection, frame: Frame) -> bool {
        let s = self.streams@;
        let credit = stream_stats(s, opt_text(frame.stream_id)).credit_outstanding + credit_change(
            direction,
            frame,
        );
        &&& i64::MIN <= credit <= i64::MAX
        &&& direction == FrameDirection::Inbound ==> stream_sum(s, frames_in()) < u64::MAX
            && stream_sum(s, bytes_in()) + frame.payload_len() <= u64::MAX
        &&& direction == FrameDirection::Outbound ==> stream_sum(s, frames_out()) < u64::MAX
            && stream_sum(s, bytes_out()) + frame.payload_len() <= u64::MAX
    }

    /// A request that was registered at `now`.
    pub fn new(
        routing: RoutingEntry,
        origin: Option<usize>,
        external_channel: Option<u64>,
        is_peer: bool,
        now: u64,
    ) -> (r: Self)
        ensures
            r.wf(),
            r.routing == routing,
            r.origin == origin,
            r.external_channel == external_channel,
            r.is_peer == is_peer,
            r.cap_urn is None,
            r.children@.len() == 0,
            r.phase == RequestPhase::Created,
            r.streams@.len() == 0,
            r.created_at == now,
            r.last_activity == now,
    {
        RequestState {
            routing,
            origin,
            external_channel,
            is_peer,
            cap_urn: None,
            children: Vec::new(),
            phase: RequestPhase::Created,
            streams: Vec::new(),
            created_at: now,
            last_activity: now,
        }
    }

    /// The same request with the cap that was asked for.
    pub fn with_cap_urn(self, cap_urn: Option<String>) -> (r: Self)
        ensures
            r == (RequestState { cap_urn, ..self }),
    {
        let mut state = self;
        state.cap_urn = cap_urn;
        state
    }

    /// Where a stream's counters stand.
    fn find_stream(&self, id: &Option<String>) -> (r: Option<usize>)
        ensures
            match r {
                Some(i) => i < self.streams@.len() && opt_text(self.streams@[i as int].stream_id)
                    == opt_text(*id),
                None => !has_stream(self.streams@, opt_text(*id)),
            },
    {
        let mut i: usize = 0;
        while i < self.streams.len()
            invariant
                i <= self.streams@.len(),
                forall|j: int|
                    0 <= j < i ==> opt_text((#[trigger] self.streams@[j]).stream_id) != opt_text(
                        *id,
                    ),
            decreases self.streams@.len() - i,
        {
            if same_opt(&self.streams[i].stream_id, id) {
                return Some(i);
            }
            i = i + 1;
        }
        None
    }

    /// The counters of a stream, where it was seen.
    pub fn stream(&self, id: &Option<String>) -> (r: Option<&StreamFlowStats>)
        requires
            self.wf(),
        ensures
            match r {
                Some(s) => has_stream(self.streams@, opt_text(*id)) && *s == stream_stats(
                    self.streams@,
                    opt_text(*id),
                ),
                None => !has_stream(self.streams@, opt_text(*id)),
            },
    {
        match self.find_stream(id) {
            Some(i) => {
                proof {
                    lemma_stream_stats(self.streams@, i as int);
                }
                Some(&self.streams[i].stats)
            },
            None => None,
        }
    }

    /// Counts a frame of this request that moved at `now`.
    pub fn record(&mut self, direction: FrameDirection, frame: &Frame, now: u64)
        requires
            old(self).wf(),
            old(self).room(direction, *frame),
        ensures
            final(self).wf(),
            recorded(*old(self), *final(self), direction, *frame, now),
    {
        let ghost before = *self;
        self.last_activity = now;
        if frame.flow {
            self.phase = RequestPhase::Streaming;
        }
        let bytes: u64 = match &frame.payload {
            Some(p) => p.len() as u64,
            None => 0,
        };
        let found = self.find_stream(&frame.stream_id);
        let ghost id = opt_text(frame.stream_id);
        let mut stats = match found {
            Some(i) => self.streams[i].stats,
            None => StreamFlowStats::default(),
        };
        proof {
            match found {
                Some(i) => {
                    lemma_stream_stats(self.streams@, i as int);
                    lemma_stream_sum_update(
                        self.streams@,
                        frames_in(),
                        i as int,
                        self.streams@[i as int],
                    );
                    lemma_stream_sum_update(
                        self.streams@,
                        frames_out(),
                        i as int,
                        self.streams@[i as int],
                    );
                    lemma_stream_sum_update(
                        self.streams@,
                        bytes_in(),
                        i as int,
                        self.streams@[i as int],
                    );
                    lemma_stream_sum_update(
                        self.streams@,
                        bytes_out(),
                        i as int,
                        self.streams@[i as int],
                    );
                },
                None => {
                    lemma_no_stream_stats(self.streams@, id);
                },
            }
        }
        let ghost old_stats = stats;
        match direction {
            FrameDirection::Inbound => {
                stats.frames_in = stats.frames_in + 1;
                stats.bytes_in = stats.bytes_in + bytes;
                if frame.frame_type == FrameType::Chunk {
                    stats.chunks_in = stats.chunks_in + 1;
                    stats.credit_outstanding = stats.credit_outstanding - 1;
                }
            },
            FrameDirection::Outbound => {
                stats.frames_out = stats.frames_out + 1;
                stats.bytes_out = stats.bytes_out + bytes;
                if frame.frame_type == FrameType::Chunk {
                    stats.chunks_out = stats.chunks_out + 1;
                }
            },
        }
        if frame.frame_type == FrameType::StreamStart && frame.unbounded {
            stats.unbounded = true;
        } else if frame.frame_type == FrameType::StreamEnd {
            stats.ended = true;
        } else if frame.frame_type == FrameType::Credit {
            let credits: i64 = match frame.credits {
                Some(n) => {
                    #[verifier::truncate]
                    (n as i64)
                },
                None => 0,
            };
            stats.credit_outstanding = stats.credit_outstanding + credits;
        }
        assert(stats == stats_after(old_stats, direction, *frame));
        let slot = StreamSlot { stream_id: clone_opt(&frame.stream_id), stats };
        match found {
            Some(i) => {
                proof {
                    let s = self.streams@;
                    lemma_stream_sum_update(s, frames_in(), i as int, slot);
                    lemma_stream_sum_update(s, frames_out(), i as int, slot);
                    lemma_stream_sum_update(s, bytes_in(), i as int, slot);
                    lemma_stream_sum_update(s, bytes_out(), i as int, slot);
                }
                self.streams.set(i, slot);
            },
            None => {
                proof {
                    let s = self.streams@;
                    lemma_stream_sum_push(s, frames_in(), slot);
                    lemma_stream_sum_push(s, frames_out(), slot);
                    lemma_stream_sum_push(s, bytes_in(), slot);
                    lemma_stream_sum_push(s, bytes_out(), slot);
                }
                self.streams.push(slot);
            },
        }
    }
}

/// `after` is `before` with one more frame counted: the stream of the frame has
/// new counters, every other stream keeps its own, and a flow frame makes the
/// request a streaming one.
pub open spec fn recorded(
    before: RequestState,
    after: RequestState,
    direction: FrameDirection,
    frame: Frame,
    now: u64,
) -> bool {
    let id = opt_text(frame.stream_id);
    let s = before.streams@;
    let t = after.streams@;
    let new_stats = stats_after(stream_stats(s, id), direction, frame);
    &&& after.last_activity == now
    &&& after.phase == (if frame.flow {
        RequestPhase::Streaming
    } else {
        before.phase
    })
    &&& after.routing == before.routing
    &&& after.origin == before.origin
    &&& after.external_channel == before.external_channel
    &&& after.is_peer == before.is_peer
    &&& after.cap_urn == before.cap_urn
    &&& after.children == before.children
    &&& after.created_at == before.created_at
    &&& t.len() == (if has_stream(s, id) {
        s.len()
    } else {
        s.len() + 1
    })
    &&& forall|i: int|
        0 <= i < t.len() ==> {
            if i < s.len() && opt_text(s[i].stream_id) != id {
                #[trigger] t[i] == s[i]
            } else {
                opt_text(t[i].stream_id) == id && t[i].stats == new_stats
            }
        }
}

/// What is kept of a request that has ended.
#[derive(Debug)]
pub struct TerminatedSummary {
    pub xid: String,
    pub rid: String,
    pub kind: TerminalKind,
    pub is_peer: bool,
    pub cap_urn: Option<String>,
    pub lifetime_ms: u64,
    pub frames_in: u64,
    pub frames_out: u64,
    pub bytes_in: u64,
    pub bytes_out: u64,
}

/// `t - since` milliseconds, and 0 where `since` lies ahead.
pub open spec fn elapsed(since: u64, t: u64) -> u64 {
    if t >= since {
        (t - since) as u64
    } else {
        0
    }
}

/// `sum` says of the request what is kept of it.
pub open spec fn summarizes(
    sum: TerminatedSummary,
    key: RequestKey,
    kind: TerminalKind,
    state: RequestState,
    now: u64,
) -> bool {
    &&& sum.xid@ == message_id_text(key.0)
    &&& sum.rid@ == message_id_text(key.1)
    &&& sum.kind == kind
    &&& sum.is_peer == state.is_peer
    &&& opt_text(sum.cap_urn) == opt_text(state.cap_urn)
    &&& sum.lifetime_ms == elapsed(state.created_at, now)
    &&& sum.frames_in == stream_sum(state.streams@, frames_in())
    &&& sum.frames_out == stream_sum(state.streams@, frames_out())
    &&& sum.bytes_in == stream_sum(state.streams@, bytes_in())
    &&& sum.bytes_out == stream_sum(state.streams@, bytes_out())
}

/// How many ended requests are kept.
pub const RECENT_TERMINATED_CAP: usize = 64;

/// A live request under its key.
#[derive(Debug)]
pub struct RequestEntry {
    pub key: RequestKey,
    pub state: RequestState,
}

/// The requests that are under way, the ones that ended last, and totals.
#[derive(Debug)]
pub struct RequestTable {
    pub entries: Vec<RequestEntry>,
    pub recent_terminated: Vec<TerminatedSummary>,
    pub total_registered: u64,
    /// How many requests ended, by the place of the kind.
    pub terminated: Vec<u64>,
}

/// Some live request has this key.
pub open spec fn has_key(entries: Seq<RequestEntry>, key: RequestKey) -> bool {
    exists|i: int| 0 <= i < entries.len() && (#[trigger] entries[i]).key == key
}

/// The routing identity that a live request's own identity belongs to.
pub open spec fn xid_of(entries: Seq<RequestEntry>, rid: MessageId) -> Option<MessageId>
    decreases entries.len(),
{
    if entries.len() == 0 {
        None
    } else if entries.last().key.1 == rid {
        Some(entries.last().key.0)
    } else {
        xid_of(entries.drop_last(), rid)
    }
}

/// The list of ended requests with one more: the oldest leaves a full list.
pub open spec fn ring_push(
    ring: Seq<TerminatedSummary>,
    summary: TerminatedSummary,
) -> Seq<TerminatedSummary> {
    if ring.len() == RECENT_TERMINATED_CAP {
        ring.drop_first().push(summary)
    } else {
        ring.push(summary)
    }
}

/// The message for a key that is live already.
pub open spec fn already_registered_text(key: RequestKey) -> Seq<char> {
    "request ("@ + message_id_text(key.0) + ", "@ + message_id_text(key.1)
        + ") already registered — a request is registered exactly once (L7)"@
}

/// The message for an identity that is live under another routing identity.
pub open spec fn already_indexed_text(key: RequestKey, xid: MessageId) -> Seq<char> {
    "rid "@ + message_id_text(key.1) + " already indexed to xid "@ + message_id_text(xid)
        + " — cannot re-index to xid "@ + message_id_text(key.0) + " (L7)"@
}

impl RequestTable {
    /// Each identity is live once at most, every request is well-formed, and
    /// the list of ended requests is within its bound.
    pub open spec fn wf(&self) -> bool {
        let e = self.entries@;
        &&& forall|i: int, j: int|
            0 <= i < j < e.len() ==> (#[trigger] e[i]).key.1 != (#[trigger] e[j]).key.1
        &&& forall|i: int| 0 <= i < e.len() ==> (#[trigger] e[i]).state.wf()
        &&& self.recent_terminated@.len() <= RECENT_TERMINATED_CAP
        &&& self.terminated@.len() == TERMINAL_KINDS
    }

    /// No requests.
    pub fn new() -> (r: Self)
        ensures
            r.wf(),
            r.entries@.len() == 0,
            r.recent_terminated@.len() == 0,
            r.total_registered == 0,
            r.terminated@ == seq![0u64, 0, 0, 0],
    {
        let mut terminated: Vec<u64> = Vec::new();
        terminated.push(0);
        terminated.push(0);
        terminated.push(0);
        terminated.push(0);
        assert(terminated@ =~= seq![0u64, 0, 0, 0]);
        RequestTable {
            entries: Vec::new(),
            recent_terminated: Vec::new(),
            total_registered: 0,
            terminated,
        }
    }

    /// Where a request stands.
    fn find(&self, key: &RequestKey) -> (r: Option<usize>)
        ensures
            match r {
                Some(i) => i < self.entries@.len() && self.entries@[i as int].key == *key,
                None => !has_key(self.entries@, *key),
            },
    {
        let mut i: usize = 0;
        while i < self.entries.len()
            invariant
                i <= self.entries@.len(),
                forall|j: int| 0 <= j < i ==> (#[trigger] self.entries@[j]).key != *key,
            decreases self.entries@.len() - i,
        {
            if self.entries[i].key.0 == key.0 && self.entries[i].key.1 == key.1 {
                return Some(i);
            }
            i = i + 1;
        }
        None
    }

    /// Registers a request. A live key, and an identity that is live under
    /// another routing identity, are refused.
    pub fn register(&mut self, key: RequestKey, state: RequestState) -> (r: Result<(), String>)
        requires
            old(self).wf(),
            state.wf(),
            xid_of(old(self).entries@, key.1) is None ==> old(self).total_registered < u64::MAX,
        ensures
            final(self).wf(),
            final(self).recent_terminated == old(self).recent_terminated,
            final(self).terminated == old(self).terminated,
            match xid_of(old(self).entries@, key.1) {
                None => {
                    &&& r is Ok
                    &&& final(self).entries@ == old(self).entries@.push(
                        (RequestEntry { key, state }),
                    )
                    &&& final(self).total_registered == old(self).total_registered + 1
                },
                Some(xid) => {
                    &&& r is Err
                    &&& r->Err_0@ == (if xid == key.0 {
                        already_registered_text(key)
                    } else {
                        already_indexed_text(key, xid)
                    })
                    &&& final(self).entries == old(self).entries
                    &&& final(self).total_registered == old(self).total_registered
                },
            },
    {
        proof {
            lemma_xid_of(self.entries@, key.1);
        }
        if self.find(&key).is_some() {
            let mut message = owned("request (");
            add_text(&mut message, &key.0.to_string());
            add_text(&mut message, ", ");
            add_text(&mut message, &key.1.to_string());
            add_text(
                &mut message,
                ") already registered — a request is registered exactly once (L7)",
            );
            return Err(message);
        }
        match self.xid_for_rid(&key.1) {
            Some(xid) => {
                if xid != key.0 {
                    let mut message = owned("rid ");
                    add_text(&mut message, &key.1.to_string());
                    add_text(&mut message, " already indexed to xid ");
                    add_text(&mut message, &xid.to_string());
                    add_text(&mut message, " — cannot re-index to xid ");
                    add_text(&mut message, &key.0.to_string());
                    add_text(&mut message, " (L7)");
                    return Err(message);
                }
            },
            None => {},
        }
        self.entries.push(RequestEntry { key, state });
        self.total_registered = self.total_registered + 1;
        Ok(())
    }

    /// The request with this key.
    pub fn get(&self, key: &RequestKey) -> (r: Option<&RequestState>)
        ensures
            match r {
                Some(s) => exists|i: int|
                    0 <= i < self.entries@.len() && #[trigger] self.entries@[i] == (RequestEntry {
                        key: *key,
                        state: *s,
                    }),
                None => !has_key(self.entries@, *key),
            },
    {
        match self.find(key) {
            Some(i) => {
                assert(self.entries@[i as int] == (RequestEntry {
                    key: *key,
                    state: self.entries@[i as int].state,
                }));
                Some(&self.entries[i].state)
            },
            None => None,
        }
    }

    /// The request with this key, to be changed in place.
    pub fn get_mut(&mut self, key: &RequestKey) -> (r: Option<&mut RequestState>)
        requires
            old(self).wf(),
        ensures
            match r {
                Some(s) => exists|i: int|
                    {
                        &&& 0 <= i < old(self).entries@.len()
                        &&& #[trigger] old(self).entries@[i] == (RequestEntry {
                            key: *key,
                            state: *s,
                        })
                        &&& final(self).entries@ == old(self).entries@.update(
                            i,
                            (RequestEntry { key: *key, state: *final(s) }),
                        )
                        &&& final(self).recent_terminated == old(self).recent_terminated
                        &&& final(self).total_registered == old(self).total_registered
                        &&& final(self).terminated == old(self).terminated
                    },
                None => !has_key(old(self).entries@, *key) && *final(self) == *old(self),
            },
    {
        match self.find(key) {
            Some(i) => {
                assert(self.entries@[i as int] == (RequestEntry {
                    key: *key,
                    state: self.entries@[i as int].state,
                }));
                Some(&mut self.entries[i].state)
            },
            None => None,
        }
    }

    /// Whether a request with this key is live.
    pub fn contains(&self, key: &RequestKey) -> (r: bool)
        ensures
            r == has_key(self.entries@, *key),
    {
        self.find(key).is_some()
    }

    /// The routing identity that a live request's own identity belongs to.
    pub fn xid_for_rid(&self, rid: &MessageId) -> (r: Option<MessageId>)
        ensures
            r == xid_of(self.entries@, *rid),
    {
        let mut n: usize = self.entries.len();
        assert(self.entries@.subrange(0, n as int) =~= self.entries@);
        while n > 0
            invariant
                n <= self.entries@.len(),
                xid_of(self.entries@, *rid) == xid_of(self.entries@.subrange(0, n as int), *rid),
            decreases n,
        {
            assert(self.entries@.subrange(0, n as int).drop_last() =~= self.entries@.subrange(
                0,
                n - 1,
            ));
            if self.entries[n - 1].key.1 == *rid {
                return Some(self.entries[n - 1].key.0);
            }
            n = n - 1;
        }
        None
    }

    /// Ends a request: takes it out, keeps a summary, and gives back its state.
    /// `None` where it is not live.
    pub fn terminate(&mut self, key: &RequestKey, kind: TerminalKind, now: u64) -> (r: Option<
        RequestState,
    >)
        requires
            old(self).wf(),
            has_key(old(self).entries@, *key) ==> old(self).terminated@[kind.place()] < u64::MAX,
        ensures
            final(self).wf(),
            final(self).total_registered == old(self).total_registered,
            match r {
                Some(state) => {
                    &&& exists|i: int|
                        {
                            &&& 0 <= i < old(self).entries@.len()
                            &&& #[trigger] old(self).entries@[i] == (RequestEntry {
                                key: *key,
                                state,
                            })
                            &&& final(self).entries@ == old(self).entries@.remove(i)
                        }
                    &&& final(self).recent_terminated@.len() > 0
                    &&& summarizes(
                        final(self).recent_terminated@.last(),
                        *key,
                        kind,
                        state,
                        now,
                    )
                    &&& final(self).recent_terminated@ == ring_push(
                        old(self).recent_terminated@,
                        final(self).recent_terminated@.last(),
                    )
                    &&& final(self).terminated@ == old(self).terminated@.update(
                        kind.place(),
                        (old(self).terminated@[kind.place()] + 1) as u64,
                    )
                },
                None => !has_key(old(self).entries@, *key) && *final(self) == *old(self),
            },
    {
        let i: usize = match self.find(key) {
            Some(i) => i,
            None => {
                return None;
            },
        };
        let ghost before = self.entries@;
        let entry = self.entries.remove(i);
        let state = entry.state;
        assert(before[i as int] == (RequestEntry { key: *key, state }));
        let (frames_in, frames_out, bytes_in, bytes_out) = state_totals(&state);
        let summary = TerminatedSummary {
            xid: key.0.to_string(),
            rid: key.1.to_string(),
            kind,
            is_peer: state.is_peer,
            cap_urn: clone_opt(&state.cap_urn),
            lifetime_ms: now.saturating_sub(state.created_at),
            frames_in,
            frames_out,
            bytes_in,
            bytes_out,
        };
        let ghost ring = self.recent_terminated@;
        if self.recent_terminated.len() == RECENT_TERMINATED_CAP {
            self.recent_terminated.remove(0);
            assert(self.recent_terminated@ =~= ring.drop_first());
        }
        self.recent_terminated.push(summary);
        let k: usize = kind.index();
        let n: u64 = self.terminated[k];
        self.terminated.set(k, n + 1);
        Some(state)
    }

    /// The summary of the request that ended last. Who watches requests end asks
    /// for it after each one, and misses none.
    pub fn last_terminated(&self) -> (r: Option<&TerminatedSummary>)
        ensures
            match r {
                Some(s) => self.recent_terminated@.len() > 0 && *s
                    == self.recent_terminated@.last(),
                None => self.recent_terminated@.len() == 0,
            },
    {
        if self.recent_terminated.len() == 0 {
            None
        } else {
            Some(&self.recent_terminated[self.recent_terminated.len() - 1])
        }
    }

    /// Counts a frame of a live request; nothing happens for another key.
    pub fn record_frame(
        &mut self,
        key: &RequestKey,
        direction: FrameDirection,
        frame: &Frame,
        now: u64,
    )
        requires
            old(self).wf(),
            forall|i: int|
                0 <= i < old(self).entries@.len() && (#[trigger] old(self).entries@[i]).key == *key
                    ==> old(self).entries@[i].state.room(direction, *frame),
        ensures
            final(self).wf(),
            final(self).recent_terminated == old(self).recent_terminated,
            final(self).total_registered == old(self).total_registered,
            final(self).terminated == old(self).terminated,
            final(self).entries@.len() == old(self).entries@.len(),
            forall|i: int|
                0 <= i < old(self).entries@.len() ==> {
                    if old(self).entries@[i].key == *key {
                        &&& (#[trigger] final(self).entries@[i]).key == *key
                        &&& recorded(
                            old(self).entries@[i].state,
                            final(self).entries@[i].state,
                            direction,
                            *frame,
                            now,
                        )
                    } else {
                        final(self).entries@[i] == old(self).entries@[i]
                    }
                },
    {
        match self.find(key) {
            Some(i) => {
                self.entries[i].state.record(direction, frame, now);
            },
            None => {},
        }
    }

    /// Notes a peer call under the request that made it; nothing happens for a
    /// key that is not live.
    pub fn link_child(&mut self, parent: &RequestKey, child: RequestKey)
        requires
            old(self).wf(),
        ensures
            final(self).wf(),
            final(self).recent_terminated == old(self).recent_terminated,
            final(self).total_registered == old(self).total_registered,
            final(self).terminated == old(self).terminated,
            final(self).entries@.len() == old(self).entries@.len(),
            forall|i: int|
                0 <= i < old(self).entries@.len() ==> {
                    let before = old(self).entries@[i];
                    let after = #[trigger] final(self).entries@[i];
                    if before.key == *parent {
                        &&& after.key == *parent
                        &&& after.state == (RequestState {
                            children: after.state.children,
                            ..before.state
                        })
                        &&& after.state.children@ == before.state.children@.push(child)
                    } else {
                        after == before
                    }
                },
    {
        match self.find(parent) {
            Some(i) => {
                self.entries[i].state.children.push(child);
            },
            None => {},
        }
    }

    /// The keys of all live requests, in the order of registration.
    pub fn keys(&self) -> (r: Vec<RequestKey>)
        ensures
            r@ == self.entries@.map_values(|e: RequestEntry| e.key),
    {
        let mut out: Vec<RequestKey> = Vec::new();
        let mut i: usize = 0;
        while i < self.entries.len()
            invariant
                i <= self.entries@.len(),
                out@.len() == i,
                forall|j: int| 0 <= j < i ==> out@[j] == (#[trigger] self.entries@[j]).key,
            decreases self.entries@.len() - i,
        {
            out.push(self.entries[i].key);
            i = i + 1;
        }
        assert(out@ =~= self.entries@.map_values(|e: RequestEntry| e.key));
        out
    }

    /// The keys of the live requests that `pred` picks, in the order of
    /// registration.
    pub fn keys_where<F: Fn(&RequestState) -> bool>(&self, pred: F) -> (r: Vec<RequestKey>)
        requires
            forall|s: &RequestState| pred.requires((s,)),
        ensures
            exists|picked: Seq<bool>|
                {
                    &&& picked.len() == self.entries@.len()
                    &&& forall|i: int|
                        0 <= i < picked.len() ==> pred.ensures(
                            (&self.entries@[i].state,),
                            #[trigger] picked[i],
                        )
                    &&& r@ == #[trigger] keys_picked(self.entries@, picked)
                },
    {
        let mut out: Vec<RequestKey> = Vec::new();
        let ghost mut picked: Seq<bool> = Seq::empty();
        let mut i: usize = 0;
        while i < self.entries.len()
            invariant
                forall|s: &RequestState| pred.requires((s,)),
                i <= self.entries@.len(),
                picked.len() == i,
                forall|j: int|
                    0 <= j < i ==> pred.ensures((&self.entries@[j].state,), #[trigger] picked[j]),
                out@ == keys_picked(self.entries@.subrange(0, i as int), picked),
            decreases self.entries@.len() - i,
        {
            let take = pred(&self.entries[i].state);
            if take {
                out.push(self.entries[i].key);
            }
            proof {
                let upto = self.entries@.subrange(0, i + 1);
                assert(upto.drop_last() =~= self.entries@.subrange(0, i as int));
                assert(picked.push(take).drop_last() =~= picked);
                picked = picked.push(take);
            }
            i = i + 1;
        }
        assert(self.entries@.subrange(0, self.entries@.len() as int) =~= self.entries@);
        out
    }

    /// How many requests are live.
    pub fn len(&self) -> (r: usize)
        ensures
            r == self.entries@.len(),
    {
        self.entries.len()
    }

    /// Whether no request is live.
    pub fn is_empty(&self) -> (r: bool)
        ensures
            r == (self.entries@.len() == 0),
    {
        self.entries.len() == 0
    }
}

/// The keys of the entries that were picked.
pub open spec fn keys_picked(entries: Seq<RequestEntry>, picked: Seq<bool>) -> Seq<RequestKey>
    decreases entries.len(),
{
    if entries.len() == 0 || picked.len() == 0 {
        Seq::empty()
    } else {
        let before = keys_picked(entries.drop_last(), picked.drop_last());
        if picked.last() {
            before.push(entries.last().key)
        } else {
            before
        }
    }
}

/// An identity is found exactly where a live request has it.
proof fn lemma_xid_of(entries: Seq<RequestEntry>, rid: MessageId)
    ensures
        match xid_of(entries, rid) {
            Some(xid) => has_key(entries, (xid, rid)),
            None => forall|i: int| 0 <= i < entries.len() ==> (#[trigger] entries[i]).key.1 != rid,
        },
    decreases entries.len(),
{
    if entries.len() > 0 {
        let front = entries.drop_last();
        lemma_xid_of(front, rid);
        if entries.last().key.1 == rid {
            assert(entries[entries.len() - 1].key == (entries.last().key.0, rid));
        } else {
            match xid_of(front, rid) {
                Some(xid) => {
                    let k = choose|k: int|
                        0 <= k < front.len() && (#[trigger] front[k]).key == (xid, rid);
                    assert(entries[k].key == (xid, rid));
                },
                None => {
                    assert forall|i: int| 0 <= i < entries.len() implies (
                    #[trigger] entries[i]).key.1 != rid by {
                        if i < front.len() {
                            assert(front[i].key.1 != rid);
                        }
                    }
                },
            }
        }
    }
}

/// The totals over the streams of a request.
fn state_totals(state: &RequestState) -> (r: (u64, u64, u64, u64))
    requires
        state.wf(),
    ensures
        r.0 == stream_sum(state.streams@, frames_in()),
        r.1 == stream_sum(state.streams@, frames_out()),
        r.2 == stream_sum(state.streams@, bytes_in()),
        r.3 == stream_sum(state.streams@, bytes_out()),
{
    let mut a: u64 = 0;
    let mut b: u64 = 0;
    let mut c: u64 = 0;
    let mut d: u64 = 0;
    let mut i: usize = 0;
    let ghost s = state.streams@;
    while i < state.streams.len()
        invariant
            i <= s.len(),
            s == state.streams@,
            state.wf(),
            a == stream_sum(s.subrange(0, i as int), frames_in()),
            b == stream_sum(s.subrange(0, i as int), frames_out()),
            c == stream_sum(s.subrange(0, i as int), bytes_in()),
            d == stream_sum(s.subrange(0, i as int), bytes_out()),
        decreases s.len() - i,
    {
        proof {
            assert(s.subrange(0, i + 1).drop_last() =~= s.subrange(0, i as int));
            lemma_stream_sum_part(s, frames_in(), i + 1);
            lemma_stream_sum_part(s, frames_out(), i + 1);
            lemma_stream_sum_part(s, bytes_in(), i + 1);
            lemma_stream_sum_part(s, bytes_out(), i + 1);
        }
        let stats = state.streams[i].stats;
        a = a + stats.frames_in;
        b = b + stats.frames_out;
        c = c + stats.bytes_in;
        d = d + stats.bytes_out;
        i = i + 1;
    }
    assert(s.subrange(0, s.len() as int) =~= s);
    (a, b, c, d)
}

// ---------------------------------------------------------------------------
// Snapshots
// ---------------------------------------------------------------------------

/// One stream of a snapshot.
#[derive(Debug)]
pub struct StreamSnapshot {
    pub stream_id: Option<String>,
    pub stats: StreamFlowStats,
}

/// One live request of a snapshot.
#[derive(Debug)]
pub struct RequestSnapshot {
    pub xid: String,
    pub rid: String,
    pub phase: RequestPhase,
    pub is_peer: bool,
    pub cap_urn: Option<String>,
    pub origin_master: Option<usize>,
    pub destination_master: usize,
    pub age_ms: u64,
    pub idle_ms: u64,
    pub children: u64,
    pub streams: Vec<StreamSnapshot>,
}

/// The table at one moment.
#[derive(Debug)]
pub struct RequestTableSnapshot {
    pub active: Vec<RequestSnapshot>,
    pub recent_terminated: Vec<TerminatedSummary>,
    pub total_registered: u64,
    pub terminated_by_kind: CountMap,
}

/// A live request of a snapshot in the model.
pub ghost struct RequestSnapshotView {
    pub xid: Seq<char>,
    pub rid: Seq<char>,
    pub phase: RequestPhase,
    pub is_peer: bool,
    pub cap_urn: Option<Seq<char>>,
    pub origin_master: Option<usize>,
    pub destination_master: usize,
    pub age_ms: u64,
    pub idle_ms: u64,
    pub children: nat,
    pub streams: Seq<(Option<Seq<char>>, StreamFlowStats)>,
}

impl View for RequestSnapshot {
    type V = RequestSnapshotView;

    open spec fn view(&self) -> RequestSnapshotView {
        RequestSnapshotView {
            xid: self.xid@,
            rid: self.rid@,
            phase: self.phase,
            is_peer: self.is_peer,
            cap_urn: opt_text(self.cap_urn),
            origin_master: self.origin_master,
            destination_master: self.destination_master,
            age_ms: self.age_ms,
            idle_ms: self.idle_ms,
            children: self.children as nat,
            streams: self.streams@.map_values(
                |s: StreamSnapshot| (opt_text(s.stream_id), s.stats),
            ),
        }
    }
}

/// What a snapshot says of a live request.
pub open spec fn snapshot_of(e: RequestEntry, now: u64) -> RequestSnapshotView {
    RequestSnapshotView {
        xid: message_id_text(e.key.0),
        rid: message_id_text(e.key.1),
        phase: e.state.phase,
        is_peer: e.state.is_peer,
        cap_urn: opt_text(e.state.cap_urn),
        origin_master: e.state.origin,
        destination_master: e.state.routing.destination_master_idx,
        age_ms: elapsed(e.state.created_at, now),
        idle_ms: elapsed(e.state.last_activity, now),
        children: e.state.children@.len(),
        streams: e.state.streams@.map_values(|s: StreamSlot| (opt_text(s.stream_id), s.stats)),
    }
}

/// `t` put into `ts` before the first request whose identity comes later.
pub open spec fn insert_snapshot(
    ts: Seq<RequestSnapshotView>,
    t: RequestSnapshotView,
) -> Seq<RequestSnapshotView>
    decreases ts.len(),
{
    if ts.len() == 0 {
        seq![t]
    } else if less(t.rid, ts[0].rid) {
        seq![t] + ts
    } else {
        seq![ts[0]] + insert_snapshot(ts.drop_first(), t)
    }
}

/// What a snapshot says of the live requests, in the order of their identities'
/// texts.
pub open spec fn active_at(entries: Seq<RequestEntry>, now: u64) -> Seq<RequestSnapshotView>
    decreases entries.len(),
{
    if entries.len() == 0 {
        Seq::empty()
    } else {
        insert_snapshot(active_at(entries.drop_last(), now), snapshot_of(entries.last(), now))
    }
}

/// The models of a list of snapshots.
pub open spec fn snapshot_views(v: Seq<RequestSnapshot>) -> Seq<RequestSnapshotView> {
    Seq::new(v.len(), |i: int| v[i]@)
}

/// The names of the terminal kinds by place.
pub open spec fn kind_names() -> spec_fn(int) -> Seq<char> {
    |i: int| TerminalKind::nth(i).name()
}

/// Two summaries say the same.
pub open spec fn same_summary(a: TerminatedSummary, b: TerminatedSummary) -> bool {
    &&& a.xid@ == b.xid@
    &&& a.rid@ == b.rid@
    &&& a.kind == b.kind
    &&& a.is_peer == b.is_peer
    &&& opt_text(a.cap_urn) == opt_text(b.cap_urn)
    &&& a.lifetime_ms == b.lifetime_ms
    &&& a.frames_in == b.frames_in
    &&& a.frames_out == b.frames_out
    &&& a.bytes_in == b.bytes_in
    &&& a.bytes_out == b.bytes_out
}

/// The snapshot of one live request.
fn snapshot_entry(e: &RequestEntry, now: u64) -> (r: RequestSnapshot)
    ensures
        r@ == snapshot_of(*e, now),
{
    let mut streams: Vec<StreamSnapshot> = Vec::new();
    let mut i: usize = 0;
    while i < e.state.streams.len()
        invariant
            i <= e.state.streams@.len(),
            streams@.len() == i,
            forall|j: int|
                0 <= j < i ==> opt_text((#[trigger] streams@[j]).stream_id) == opt_text(
                    e.state.streams@[j].stream_id,
                ) && streams@[j].stats == e.state.streams@[j].stats,
        decreases e.state.streams@.len() - i,
    {
        streams.push(
            StreamSnapshot {
                stream_id: clone_opt(&e.state.streams[i].stream_id),
                stats: e.state.streams[i].stats,
            },
        );
        i = i + 1;
    }
    let r = RequestSnapshot {
        xid: e.key.0.to_string(),
        rid: e.key.1.to_string(),
        phase: e.state.phase,
        is_peer: e.state.is_peer,
        cap_urn: clone_opt(&e.state.cap_urn),
        origin_master: e.state.origin,
        destination_master: e.state.routing.destination_master_idx,
        age_ms: now.saturating_sub(e.state.created_at),
        idle_ms: now.saturating_sub(e.state.last_activity),
        children: e.state.children.len() as u64,
        streams,
    };
    assert(r@.streams =~= snapshot_of(*e, now).streams);
    r
}

/// Puts a snapshot at its place in the order of the identities.
fn place_snapshot(v: &mut Vec<RequestSnapshot>, t: RequestSnapshot)
    ensures
        snapshot_views(final(v)@) == insert_snapshot(snapshot_views(old(v)@), t@),
{
    let mut i: usize = 0;
    let ghost all = snapshot_views(v@);
    let ghost whole = insert_snapshot(all, t@);
    proof {
        assert(all.subrange(0, all.len() as int) =~= all);
        assert(all.subrange(0, 0) + whole =~= whole);
    }
    while i < v.len()
        invariant
            i <= v@.len(),
            v@ == old(v)@,
            all == snapshot_views(v@),
            whole == insert_snapshot(all, t@),
            whole == all.subrange(0, i as int) + insert_snapshot(
                all.subrange(i as int, all.len() as int),
                t@,
            ),
        decreases v@.len() - i,
    {
        let ghost here = all.subrange(i as int, all.len() as int);
        assert(here[0] == all[i as int]);
        if text_less(&t.rid, &v[i].rid) {
            let ghost tv = t@;
            v.insert(i, t);
            assert(snapshot_views(v@) =~= all.subrange(0, i as int) + (seq![tv] + here));
            return;
        }
        assert(here.drop_first() =~= all.subrange(i + 1, all.len() as int));
        assert(all.subrange(0, i as int) + (seq![here[0]] + insert_snapshot(
            here.drop_first(),
            t@,
        )) =~= all.subrange(0, i + 1) + insert_snapshot(here.drop_first(), t@));
        i = i + 1;
    }
    let ghost tv = t@;
    v.push(t);
    assert(snapshot_views(v@) =~= all.subrange(0, i as int) + seq![tv]);
}

impl TerminatedSummary {
    /// A copy of the summary.
    pub fn copied(&self) -> (r: TerminatedSummary)
        ensures
            same_summary(r, *self),
    {
        TerminatedSummary {
            xid: self.xid.clone(),
            rid: self.rid.clone(),
            kind: self.kind,
            is_peer: self.is_peer,
            cap_urn: clone_opt(&self.cap_urn),
            lifetime_ms: self.lifetime_ms,
            frames_in: self.frames_in,
            frames_out: self.frames_out,
            bytes_in: self.bytes_in,
            bytes_out: self.bytes_out,
        }
    }
}

impl RequestTable {
    /// The table at `now`: the live requests in the order of their identities'
    /// texts, the ended ones oldest first, and the totals that are not zero.
    pub fn snapshot(&self, now: u64) -> (r: RequestTableSnapshot)
        requires
            self.wf(),
        ensures
            snapshot_views(r.active@) == active_at(self.entries@, now),
            r.recent_terminated@.len() == self.recent_terminated@.len(),
            forall|i: int|
                0 <= i < r.recent_terminated@.len() ==> same_summary(
                    #[trigger] r.recent_terminated@[i],
                    self.recent_terminated@[i],
                ),
            r.total_registered == self.total_registered,
            r.terminated_by_kind@ == nonzero(self.terminated@, kind_names()),
    {
        let mut active: Vec<RequestSnapshot> = Vec::new();
        let mut i: usize = 0;
        assert(self.entries@.subrange(0, 0) =~= Seq::<RequestEntry>::empty());
        assert(snapshot_views(active@) =~= Seq::<RequestSnapshotView>::empty());
        while i < self.entries.len()
            invariant
                i <= self.entries@.len(),
                snapshot_views(active@) == active_at(self.entries@.subrange(0, i as int), now),
            decreases self.entries@.len() - i,
        {
            assert(self.entries@.subrange(0, i + 1).drop_last() =~= self.entries@.subrange(
                0,
                i as int,
            ));
            let snap = snapshot_entry(&self.entries[i], now);
            place_snapshot(&mut active, snap);
            i = i + 1;
        }
        assert(self.entries@.subrange(0, self.entries@.len() as int) =~= self.entries@);
        let mut recent: Vec<TerminatedSummary> = Vec::new();
        let mut j: usize = 0;
        while j < self.recent_terminated.len()
            invariant
                j <= self.recent_terminated@.len(),
                recent@.len() == j,
                forall|k: int|
                    0 <= k < j ==> same_summary(
                        #[trigger] recent@[k],
                        self.recent_terminated@[k],
                    ),
            decreases self.recent_terminated@.len() - j,
        {
            recent.push(self.recent_terminated[j].copied());
            j = j + 1;
        }
        let mut by_kind = CountMap::new();
        let mut k: usize = 0;
        while k < TERMINAL_KINDS
            invariant
                k <= TERMINAL_KINDS,
                self.terminated@.len() == TERMINAL_KINDS,
                by_kind@ == nonzero(self.terminated@.subrange(0, k as int), kind_names()),
            decreases TERMINAL_KINDS - k,
        {
            let kind = TerminalKind::at(k);
            let count: u64 = self.terminated[k];
            assert(self.terminated@.subrange(0, k + 1).drop_last() =~= self.terminated@.subrange(
                0,
                k as int,
            ));
            if count > 0 {
                by_kind.push(kind.as_str(), count);
            }
            k = k + 1;
        }
        assert(self.terminated@.subrange(0, self.terminated@.len() as int) =~= self.terminated@);
        RequestTableSnapshot {
            active,
            recent_terminated: recent,
            total_registered: self.total_registered,
            terminated_by_kind: by_kind,
        }
    }
}

// ---------------------------------------------------------------------------
// Laws
// ---------------------------------------------------------------------------

/// Law: an identity belongs to a routing identity exactly where a request under
/// the two of them is live.
pub proof fn law_identity_agrees_with_table(table: RequestTable, xid: MessageId, rid: MessageId)
    requires
        table.wf(),
    ensures
        (xid_of(table.entries@, rid) == Some(xid)) == has_key(table.entries@, (xid, rid)),
{
    let e = table.entries@;
    lemma_xid_of(e, rid);
    if has_key(e, (xid, rid)) {
        let i = choose|i: int| 0 <= i < e.len() && (#[trigger] e[i]).key == (xid, rid);
        assert(e[i].key.1 == rid);
        let x = xid_of(e, rid)->0;
        let j = choose|j: int| 0 <= j < e.len() && (#[trigger] e[j]).key == (x, rid);
        if i < j {
            assert(e[i].key.1 != e[j].key.1);
        } else if j < i {
            assert(e[j].key.1 != e[i].key.1);
        }
    }
}

/// Law: once a request has ended, nothing of it is left: its key is not live,
/// and its identity can be registered again. Every other request stays live.
pub proof fn law_ended_request_leaves_nothing(table: RequestTable, i: int)
    requires
        table.wf(),
        0 <= i < table.entries@.len(),
    ensures
        !has_key(table.entries@.remove(i), table.entries@[i].key),
        xid_of(table.entries@.remove(i), table.entries@[i].key.1) is None,
        forall|j: int|
            0 <= j < table.entries@.len() && j != i ==> has_key(
                table.entries@.remove(i),
                (#[trigger] table.entries@[j]).key,
            ),
{
    let e = table.entries@;
    let rest = e.remove(i);
    let rid = e[i].key.1;
    assert forall|k: int| 0 <= k < rest.len() implies (#[trigger] rest[k]).key.1 != rid by {
        if k < i {
            assert(rest[k] == e[k]);
        } else {
            assert(rest[k] == e[k + 1]);
            assert(e[i].key.1 != e[k + 1].key.1);
        }
    }
    lemma_xid_of(rest, rid);
    assert forall|j: int| 0 <= j < e.len() && j != i implies has_key(
        rest,
        (#[trigger] e[j]).key,
    ) by {
        let k = if j < i {
            j
        } else {
            j - 1
        };
        assert(rest[k].key == e[j].key);
    }
}

/// Law: a request that is live cannot be registered a second time.
pub proof fn law_live_request_is_refused(table: RequestTable, key: RequestKey)
    requires
        table.wf(),
        has_key(table.entries@, key),
    ensures
        xid_of(table.entries@, key.1) == Some(key.0),
{
    law_identity_agrees_with_table(table, key.0, key.1);
}

/// Law: a snapshot lists the live requests in the order of their identities'
/// texts, one for each.
pub proof fn law_snapshot_is_sorted(entries: Seq<RequestEntry>, now: u64)
    ensures
        active_at(entries, now).len() == entries.len(),
        forall|i: int, j: int|
            0 <= i < j < entries.len() ==> !less(
                (#[trigger] active_at(entries, now)[j]).rid,
                (#[trigger] active_at(entries, now)[i]).rid,
            ),
        forall|i: int|
            0 <= i < entries.len() ==> active_at(entries, now).contains(
                snapshot_of(#[trigger] entries[i], now),
            ),
    decreases entries.len(),
{
    if entries.len() > 0 {
        let front = entries.drop_last();
        law_snapshot_is_sorted(front, now);
        let t = snapshot_of(entries.last(), now);
        lemma_insert_snapshot(active_at(front, now), t);
        assert forall|i: int| 0 <= i < entries.len() implies active_at(entries, now).contains(
            snapshot_of(#[trigger] entries[i], now),
        ) by {
            if i < front.len() {
                assert(front[i] == entries[i]);
            }
        }
    }
}

proof fn lemma_insert_snapshot(ts: Seq<RequestSnapshotView>, t: RequestSnapshotView)
    requires
        forall|i: int, j: int|
            0 <= i < j < ts.len() ==> !less((#[trigger] ts[j]).rid, (#[trigger] ts[i]).rid),
    ensures
        insert_snapshot(ts, t).len() == ts.len() + 1,
        insert_snapshot(ts, t).contains(t),
        forall|s: RequestSnapshotView| ts.contains(s) ==> insert_snapshot(ts, t).contains(s),
        forall|i: int|
            0 <= i < insert_snapshot(ts, t).len() ==> (#[trigger] insert_snapshot(ts, t)[i]) == t
                || ts.contains(insert_snapshot(ts, t)[i]),
        forall|i: int, j: int|
            0 <= i < j < insert_snapshot(ts, t).len() ==> !less(
                (#[trigger] insert_snapshot(ts, t)[j]).rid,
                (#[trigger] insert_snapshot(ts, t)[i]).rid,
            ),
    decreases ts.len(),
{
    let r = insert_snapshot(ts, t);
    if ts.len() == 0 {
        assert(r[0] == t);
    } else if less(t.rid, ts[0].rid) {
        assert(r[0] == t);
        assert forall|s: RequestSnapshotView| ts.contains(s) implies r.contains(s) by {
            let k = ts.index_of(s);
            assert(r[k + 1] == s);
        }
        assert forall|i: int| 0 <= i < r.len() implies (#[trigger] r[i]) == t || ts.contains(
            r[i],
        ) by {
            if i > 0 {
                assert(ts[i - 1] == r[i]);
            }
        }
        assert forall|i: int, j: int| 0 <= i < j < r.len() implies !less(
            (#[trigger] r[j]).rid,
            (#[trigger] r[i]).rid,
        ) by {
            assert(r[j] == ts[j - 1]);
            if i == 0 {
                if less(ts[j - 1].rid, t.rid) {
                    lemma_less_trans(ts[j - 1].rid, t.rid, ts[0].rid);
                    lemma_less_strict(ts[0].rid, ts[0].rid);
                }
            } else {
                assert(r[i] == ts[i - 1]);
            }
        }
    } else {
        let tail = ts.drop_first();
        lemma_insert_snapshot(tail, t);
        let rest = insert_snapshot(tail, t);
        let k = rest.index_of(t);
        assert(r[k + 1] == t);
        assert forall|s: RequestSnapshotView| ts.contains(s) implies r.contains(s) by {
            let m = ts.index_of(s);
            if m == 0 {
                assert(r[0] == s);
            } else {
                assert(tail[m - 1] == s);
                assert(tail.contains(s));
                assert(rest.contains(s));
                let q = rest.index_of(s);
                assert(0 <= q < rest.len() && rest[q] == s);
                assert(r[q + 1] == s);
            }
        }
        assert forall|i: int| 0 <= i < r.len() implies (#[trigger] r[i]) == t || ts.contains(
            r[i],
        ) by {
            if i == 0 {
                assert(ts[0] == r[0]);
            } else {
                assert(r[i] == rest[i - 1]);
                if rest[i - 1] != t {
                    assert(tail.contains(rest[i - 1]));
                    let q = tail.index_of(rest[i - 1]);
                    assert(ts[q + 1] == r[i]);
                }
            }
        }
        assert forall|i: int, j: int| 0 <= i < j < r.len() implies !less(
            (#[trigger] r[j]).rid,
            (#[trigger] r[i]).rid,
        ) by {
            assert(r[j] == rest[j - 1]);
            if i == 0 {
                if rest[j - 1] != t {
                    assert(tail.contains(rest[j - 1]));
                    let q = tail.index_of(rest[j - 1]);
                    assert(ts[q + 1] == r[j]);
                }
            } else {
                assert(r[i] == rest[i - 1]);
            }
        }
    }
}

// ---------------------------------------------------------------------------
// What the counters count
// ---------------------------------------------------------------------------

/// A frame, and which way it went.
pub ghost struct Passage {
    pub direction: FrameDirection,
    pub frame: Frame,
}

/// The counters of a stream after these frames.
pub open spec fn stats_over(ps: Seq<Passage>) -> StreamFlowStats
    decreases ps.len(),
{
    if ps.len() == 0 {
        StreamFlowStats::zero()
    } else {
        stats_after(stats_over(ps.drop_last()), ps.last().direction, ps.last().frame)
    }
}

/// How many of the frames are so.
pub open spec fn passages(ps: Seq<Passage>, is: spec_fn(Passage) -> bool) -> nat
    decreases ps.len(),
{
    if ps.len() == 0 {
        0
    } else {
        passages(ps.drop_last(), is) + (if is(ps.last()) {
            1nat
        } else {
            0
        })
    }
}

/// How many bytes the frames that are so carry.
pub open spec fn passage_bytes(ps: Seq<Passage>, is: spec_fn(Passage) -> bool) -> nat
    decreases ps.len(),
{
    if ps.len() == 0 {
        0
    } else {
        passage_bytes(ps.drop_last(), is) + (if is(ps.last()) {
            match ps.last().frame.payload {
                Some(p) => p@.len(),
                None => 0,
            }
        } else {
            0
        })
    }
}

/// How many credits the frames grant.
pub open spec fn passage_credits(ps: Seq<Passage>) -> nat
    decreases ps.len(),
{
    if ps.len() == 0 {
        0
    } else {
        passage_credits(ps.drop_last()) + (match ps.last().frame.credits {
            Some(n) if ps.last().frame.frame_type == FrameType::Credit => n as nat,
            _ => 0,
        })
    }
}

proof fn lemma_passages_bound(ps: Seq<Passage>, is: spec_fn(Passage) -> bool)
    ensures
        passages(ps, is) <= ps.len(),
    decreases ps.len(),
{
    if ps.len() > 0 {
        lemma_passages_bound(ps.drop_last(), is);
    }
}

/// Law: the counters of a stream tell, for each way, how many frames went it,
/// how many of them were chunks, and how many bytes they carried; its credit is
/// what was granted less the chunks that came in; it has ended once its end has
/// passed, and promises no length once a start that does not has passed.
pub proof fn law_stream_counters_count_the_frames(ps: Seq<Passage>)
    requires
        ps.len() <= i64::MAX,
        passage_bytes(ps, |p: Passage| true) <= u64::MAX,
        passage_credits(ps) <= i64::MAX,
    ensures
        ({
            let s = stats_over(ps);
            let inward = |p: Passage| p.direction == FrameDirection::Inbound;
            let outward = |p: Passage| p.direction == FrameDirection::Outbound;
            let chunk_in = |p: Passage|
                p.direction == FrameDirection::Inbound && p.frame.frame_type == FrameType::Chunk;
            let chunk_out = |p: Passage|
                p.direction == FrameDirection::Outbound && p.frame.frame_type == FrameType::Chunk;
            &&& s.frames_in == passages(ps, inward)
            &&& s.frames_out == passages(ps, outward)
            &&& s.frames_in + s.frames_out == ps.len()
            &&& s.bytes_in == passage_bytes(ps, inward)
            &&& s.bytes_out == passage_bytes(ps, outward)
            &&& s.chunks_in == passages(ps, chunk_in)
            &&& s.chunks_out == passages(ps, chunk_out)
            &&& s.credit_outstanding == passage_credits(ps) - s.chunks_in
            &&& s.ended <==> exists|i: int|
                0 <= i < ps.len() && (#[trigger] ps[i]).frame.frame_type == FrameType::StreamEnd
            &&& s.unbounded <==> exists|i: int|
                0 <= i < ps.len() && (#[trigger] ps[i]).frame.frame_type == FrameType::StreamStart
                    && ps[i].frame.unbounded
        }),
    decreases ps.len(),
{
    let inward = |p: Passage| p.direction == FrameDirection::Inbound;
    let outward = |p: Passage| p.direction == FrameDirection::Outbound;
    let chunk_in = |p: Passage|
        p.direction == FrameDirection::Inbound && p.frame.frame_type == FrameType::Chunk;
    let chunk_out = |p: Passage|
        p.direction == FrameDirection::Outbound && p.frame.frame_type == FrameType::Chunk;
    if ps.len() > 0 {
        let rest = ps.drop_last();
        law_stream_counters_count_the_frames(rest);
        lemma_passages_bound(rest, chunk_in);
        lemma_passages_bound(rest, chunk_out);
        lemma_passage_bytes(ps, inward);
        lemma_passage_bytes(ps, outward);
        let last = ps.last();
        assert(ps[ps.len() - 1] == last);
        let before = stats_over(rest);
        let s = stats_over(ps);
        if exists|i: int|
            0 <= i < rest.len() && (#[trigger] rest[i]).frame.frame_type == FrameType::StreamEnd {
            let i = choose|i: int|
                0 <= i < rest.len() && (#[trigger] rest[i]).frame.frame_type
                    == FrameType::StreamEnd;
            assert(ps[i] == rest[i]);
        }
        if exists|i: int|
            0 <= i < ps.len() && (#[trigger] ps[i]).frame.frame_type == FrameType::StreamEnd {
            let i = choose|i: int|
                0 <= i < ps.len() && (#[trigger] ps[i]).frame.frame_type == FrameType::StreamEnd;
            if i < rest.len() {
                assert(rest[i] == ps[i]);
            }
        }
        if exists|i: int|
            0 <= i < rest.len() && (#[trigger] rest[i]).frame.frame_type == FrameType::StreamStart
                && rest[i].frame.unbounded {
            let i = choose|i: int|
                0 <= i < rest.len() && (#[trigger] rest[i]).frame.frame_type
                    == FrameType::StreamStart && rest[i].frame.unbounded;
            assert(ps[i] == rest[i]);
        }
        if exists|i: int|
            0 <= i < ps.len() && (#[trigger] ps[i]).frame.frame_type == FrameType::StreamStart
                && ps[i].frame.unbounded {
            let i = choose|i: int|
                0 <= i < ps.len() && (#[trigger] ps[i]).frame.frame_type == FrameType::StreamStart
                    && ps[i].frame.unbounded;
            if i < rest.len() {
                assert(rest[i] == ps[i]);
            }
        }
    }
}

proof fn lemma_passage_bytes(ps: Seq<Passage>, is: spec_fn(Passage) -> bool)
    ensures
        passage_bytes(ps, is) <= passage_bytes(ps, |p: Passage| true),
    decreases ps.len(),
{
    if ps.len() > 0 {
        lemma_passage_bytes(ps.drop_last(), is);
    }
}

/// Law: what is kept of a request that ended adds up its streams, each counter by
/// itself, and its lifetime runs from its start to its end.
pub proof fn law_summary_adds_up_the_streams(
    sum: TerminatedSummary,
    key: RequestKey,
    kind: TerminalKind,
    state: RequestState,
    now: u64,
)
    requires
        summarizes(sum, key, kind, state, now),
    ensures
        sum.kind == kind,
        sum.is_peer == state.is_peer,
        now >= state.created_at ==> state.created_at + sum.lifetime_ms == now,
        now < state.created_at ==> sum.lifetime_ms == 0,
        state.streams@.len() == 0 ==> sum.frames_in == 0 && sum.frames_out == 0 && sum.bytes_in == 0
            && sum.bytes_out == 0,
        state.streams@.len() == 1 ==> {
            let s = state.streams@[0].stats;
            &&& sum.frames_in == s.frames_in
            &&& sum.frames_out == s.frames_out
            &&& sum.bytes_in == s.bytes_in
            &&& sum.bytes_out == s.bytes_out
        },
        state.streams@.len() == 2 ==> {
            let s = state.streams@[0].stats;
            let t = state.streams@[1].stats;
            &&& sum.frames_in == s.frames_in + t.frames_in
            &&& sum.frames_out == s.frames_out + t.frames_out
            &&& sum.bytes_in == s.bytes_in + t.bytes_in
            &&& sum.bytes_out == s.bytes_out + t.bytes_out
        },
{
    reveal_with_fuel(stream_sum, 3);
}

/// The list of ended requests after these have ended.
pub open spec fn ring_over(ended: Seq<TerminatedSummary>) -> Seq<TerminatedSummary>
    decreases ended.len(),
{
    if ended.len() == 0 {
        Seq::empty()
    } else {
        ring_push(ring_over(ended.drop_last()), ended.last())
    }
}

/// Law: the list of ended requests holds the last of them, in the order in which
/// they ended, as many as there is room for.
pub proof fn law_recent_list_holds_the_last(ended: Seq<TerminatedSummary>)
    ensures
        ended.len() <= RECENT_TERMINATED_CAP ==> ring_over(ended) == ended,
        ended.len() > RECENT_TERMINATED_CAP ==> ring_over(ended) == ended.subrange(
            ended.len() - RECENT_TERMINATED_CAP,
            ended.len() as int,
        ),
    decreases ended.len(),
{
    if ended.len() > 0 {
        let rest = ended.drop_last();
        law_recent_list_holds_the_last(rest);
        if ended.len() <= RECENT_TERMINATED_CAP {
            assert(ring_over(ended) =~= ended);
        } else {
            assert(ring_over(ended) =~= ended.subrange(
                ended.len() - RECENT_TERMINATED_CAP,
                ended.len() as int,
            ));
        }
    } else {
        assert(ring_over(ended) =~= ended);
    }
}

/// Law: a snapshot tells of each live request what is known of it, each thing
/// under its own name: its age from its start, how long it is idle from the last
/// frame, where it came from and where it went.
pub proof fn law_snapshot_tells_of_the_request(e: RequestEntry, now: u64)
    ensures
        ({
            let s = snapshot_of(e, now);
            &&& s.xid == message_id_text(e.key.0)
            &&& s.rid == message_id_text(e.key.1)
            &&& s.phase == e.state.phase
            &&& s.is_peer == e.state.is_peer
            &&& s.cap_urn == opt_text(e.state.cap_urn)
            &&& s.origin_master == e.state.origin
            &&& s.destination_master == e.state.routing.destination_master_idx
            &&& s.children == e.state.children@.len()
            &&& now >= e.state.created_at ==> e.state.created_at + s.age_ms == now
            &&& now >= e.state.last_activity ==> e.state.last_activity + s.idle_ms == now
            &&& s.streams.len() == e.state.streams@.len()
            &&& forall|i: int|
                0 <= i < s.streams.len() ==> #[trigger] s.streams[i] == (
                    opt_text(e.state.streams@[i].stream_id),
                    e.state.streams@[i].stats,
                )
        }),
{
}

/// Law: a frame is counted with its own stream and with no other, and makes the
/// request a streaming one exactly where it belongs to its flow.
pub proof fn law_frame_counts_with_its_own_stream(
    before: RequestState,
    after: RequestState,
    direction: FrameDirection,
    frame: Frame,
    now: u64,
    i: int,
)
    requires
        recorded(before, after, direction, frame, now),
        0 <= i < before.streams@.len(),
    ensures
        after.last_activity == now,
        after.created_at == before.created_at,
        after.streams@.len() >= before.streams@.len(),
        opt_text(before.streams@[i].stream_id) != opt_text(frame.stream_id) ==> after.streams@[i]
            == before.streams@[i],
        frame.flow ==> after.phase == RequestPhase::Streaming,
        !frame.flow ==> after.phase == before.phase,
{
    if opt_text(before.streams@[i].stream_id) != opt_text(frame.stream_id) {
        assert(after.streams@[i] == before.streams@[i]);
    }
}

/// Law: the keys that are picked are those of the picked requests and no others;
/// where every request is picked they are all keys, in the order of registration.
pub proof fn law_exactly_the_picked_keys(
    entries: Seq<RequestEntry>,
    picked: Seq<bool>,
    key: RequestKey,
)
    requires
        entries.len() == picked.len(),
    ensures
        keys_picked(entries, picked).contains(key) <==> exists|i: int|
            0 <= i < entries.len() && picked[i] && (#[trigger] entries[i]).key == key,
        (forall|i: int| 0 <= i < picked.len() ==> #[trigger] picked[i]) ==> keys_picked(
            entries,
            picked,
        ) == Seq::new(entries.len(), |i: int| entries[i].key),
    decreases entries.len(),
{
    if entries.len() > 0 {
        let es = entries.drop_last();
        let ps = picked.drop_last();
        let n = entries.len() - 1;
        let before = keys_picked(es, ps);
        let all = keys_picked(entries, picked);
        law_exactly_the_picked_keys(es, ps, key);
        if all.contains(key) {
            let k = all.index_of(key);
            if k < before.len() {
                assert(before[k] == key);
                let i = choose|i: int|
                    0 <= i < es.len() && ps[i] && (#[trigger] es[i]).key == key;
                assert(entries[i] == es[i] && picked[i] == ps[i]);
            } else {
                assert(entries[n].key == key && picked[n]);
            }
        }
        if exists|i: int|
            0 <= i < entries.len() && picked[i] && (#[trigger] entries[i]).key == key {
            let i = choose|i: int|
                0 <= i < entries.len() && picked[i] && (#[trigger] entries[i]).key == key;
            if i < n {
                assert(es[i].key == key && ps[i]);
                let k = before.index_of(key);
                assert(all[k] == key);
            } else {
                assert(all[before.len() as int] == key);
            }
        }
        if forall|i: int| 0 <= i < picked.len() ==> #[trigger] picked[i] {
            assert forall|i: int| 0 <= i < ps.len() implies #[trigger] ps[i] by {
                assert(picked[i]);
            }
            assert(picked[n]);
            assert(all =~= Seq::new(entries.len(), |i: int| entries[i].key));
        }
    } else {
        assert(keys_picked(entries, picked) =~= Seq::new(
            entries.len(),
            |i: int| entries[i].key,
        ));
    }
}

} // verus!
