//! Credit-based flow control: one credit is permission to send one CHUNK.
//!
//! Each sender has a window. The router finds the window that a CREDIT
//! frame is meant for. Waiting for a grant is the caller's business: a window
//! says whether the credits are there.

use crate::bifaci::frame::{Frame, FrameType, MessageId};
use crate::text::{add_text, opt_text, owned, same_opt};
use vstd::prelude::*;

verus! {

broadcast use vstd::string::group_string_axioms;

// ---------------------------------------------------------------------------
// Windows
// ---------------------------------------------------------------------------

/// What a sender is told whose window has closed: it must stop sending.
#[derive(Debug, PartialEq, Eq)]
pub struct CreditClosed {
    /// Why the window closed (`CANCELLED`, `END`, ...).
    pub reason: String,
}

impl CreditClosed {
    /// The error as a message.
    pub fn to_string(&self) -> (r: String)
        ensures
            r@ == "credit gate closed: "@ + self.reason@,
    {
        let mut out = owned("credit gate closed: ");
        add_text(&mut out, &self.reason);
        out
    }
}

/// A window in the model: the credits that are left, and why it closed.
pub ghost struct GateView {
    pub available: nat,
    pub closed: Option<Seq<char>>,
}

impl GateView {
    /// The window after `n` credits came in: more credits, up to what a counter
    /// holds; nothing where the window has closed.
    pub open spec fn granted(self, n: nat) -> GateView {
        if self.closed is Some {
            self
        } else {
            GateView {
                available: if self.available + n > u64::MAX {
                    u64::MAX as nat
                } else {
                    self.available + n
                },
                closed: None,
            }
        }
    }

    /// Whether `n` credits can be taken.
    pub open spec fn can_take(self, n: nat) -> bool {
        self.closed is None && n <= self.available
    }

    /// The window after an attempt to take `n` credits.
    pub open spec fn taken(self, n: nat) -> GateView {
        if self.can_take(n) {
            GateView { available: (self.available - n) as nat, closed: None }
        } else {
            self
        }
    }

    /// The window after it was closed: the first reason stays.
    pub open spec fn shut(self, reason: Seq<char>) -> GateView {
        if self.closed is Some {
            self
        } else {
            GateView { available: self.available, closed: Some(reason) }
        }
    }
}

/// The credit window of one sender.
#[derive(Debug)]
pub struct CreditGate {
    /// Chunks that may still be sent.
    pub credits: u64,
    /// Why the window closed, once it has.
    pub reason: Option<String>,
}

impl View for CreditGate {
    type V = GateView;

    open spec fn view(&self) -> GateView {
        GateView { available: self.credits as nat, closed: opt_text(self.reason) }
    }
}

impl CreditGate {
    /// An open window with this many credits.
    pub fn new(initial_credit: u64) -> (r: Self)
        ensures
            r@ == (GateView { available: initial_credit as nat, closed: None }),
    {
        CreditGate { credits: initial_credit, reason: None }
    }

    /// Takes `n` credits where they are there; fails where the window has closed.
    pub fn try_acquire(&mut self, n: u64) -> (r: Result<bool, CreditClosed>)
        ensures
            final(self)@ == old(self)@.taken(n as nat),
            match r {
                Ok(done) => old(self)@.closed is None && done == (n <= old(self)@.available),
                Err(e) => old(self)@.closed == Some(e.reason@),
            },
    {
        match &self.reason {
            Some(reason) => {
                return Err(CreditClosed { reason: reason.clone() });
            },
            None => {},
        }
        if self.credits >= n {
            self.credits = self.credits - n;
            Ok(true)
        } else {
            Ok(false)
        }
    }

    /// Adds `n` credits; nothing where the window has closed.
    pub fn grant(&mut self, n: u64)
        ensures
            final(self)@ == old(self)@.granted(n as nat),
    {
        if self.reason.is_some() {
            return;
        }
        self.credits = self.credits.saturating_add(n);
    }

    /// Closes the window; the first reason stays.
    pub fn close(&mut self, reason: &str)
        ensures
            final(self)@ == old(self)@.shut(reason@),
    {
        if self.reason.is_none() {
            self.reason = Some(owned(reason));
        }
    }

    /// The credits that are left.
    pub fn available(&self) -> (r: u64)
        ensures
            r == self@.available,
    {
        self.credits
    }

    /// Whether the window has closed.
    pub fn is_closed(&self) -> (r: bool)
        ensures
            r == (self@.closed is Some),
    {
        self.reason.is_some()
    }
}

// ---------------------------------------------------------------------------
// Laws of a window
// ---------------------------------------------------------------------------

/// One thing that happens to a window.
pub ghost enum GateOp {
    Take(nat),
    Grant(nat),
    Shut(Seq<char>),
}

/// The window after one thing happened.
pub open spec fn gate_step(g: GateView, op: GateOp) -> GateView {
    match op {
        GateOp::Take(n) => g.taken(n),
        GateOp::Grant(n) => g.granted(n),
        GateOp::Shut(reason) => g.shut(reason),
    }
}

/// The window after a history.
pub open spec fn gate_run(g: GateView, ops: Seq<GateOp>) -> GateView
    decreases ops.len(),
{
    if ops.len() == 0 {
        g
    } else {
        gate_step(gate_run(g, ops.drop_last()), ops.last())
    }
}

/// How many credits were taken over a history.
pub open spec fn taken_over(g: GateView, ops: Seq<GateOp>) -> nat
    decreases ops.len(),
{
    if ops.len() == 0 {
        0
    } else {
        let before = taken_over(g, ops.drop_last());
        match ops.last() {
            GateOp::Take(n) => if gate_run(g, ops.drop_last()).can_take(n) {
                before + n
            } else {
                before
            },
            _ => before,
        }
    }
}

/// How many credits were granted over a history.
pub open spec fn granted_over(ops: Seq<GateOp>) -> nat
    decreases ops.len(),
{
    if ops.len() == 0 {
        0
    } else {
        let before = granted_over(ops.drop_last());
        match ops.last() {
            GateOp::Grant(n) => before + n,
            _ => before,
        }
    }
}

/// Law: whatever happens to a window, no more chunks are sent than the initial
/// window and the grants allow.
pub proof fn law_never_sends_more_than_granted(g: GateView, ops: Seq<GateOp>)
    ensures
        taken_over(g, ops) + gate_run(g, ops).available <= g.available + granted_over(ops),
    decreases ops.len(),
{
    if ops.len() > 0 {
        law_never_sends_more_than_granted(g, ops.drop_last());
    }
}

/// Law: a closed window stays closed, for its first reason, and no more credits
/// are taken from it.
pub proof fn law_closed_gate_stays_closed(g: GateView, ops: Seq<GateOp>)
    requires
        g.closed is Some,
    ensures
        gate_run(g, ops) == g,
        taken_over(g, ops) == 0,
    decreases ops.len(),
{
    if ops.len() > 0 {
        law_closed_gate_stays_closed(g, ops.drop_last());
    }
}

/// Law: closing a window makes every attempt to take credits fail, so that no
/// sender waits at it for ever.
pub proof fn law_close_releases_waiters(g: GateView, reason: Seq<char>, ops: Seq<GateOp>, n: nat)
    ensures
        !gate_run(g.shut(reason), ops).can_take(n),
        gate_run(g.shut(reason), ops).closed is Some,
{
    law_closed_gate_stays_closed(g.shut(reason), ops);
}

// ---------------------------------------------------------------------------
// Routing grants
// ---------------------------------------------------------------------------

/// A registered window, and the stream that it belongs to.
#[derive(Debug)]
pub struct GateEntry<G> {
    pub rid: MessageId,
    pub stream_id: Option<String>,
    pub gate: G,
}

impl<G> GateEntry<G> {
    /// The stream that the window belongs to.
    pub open spec fn key(self) -> (MessageId, Option<Seq<char>>) {
        (self.rid, opt_text(self.stream_id))
    }
}

/// The windows of the streams that local senders write, by request and stream.
#[derive(Debug)]
pub struct CreditRouter<G> {
    pub gates: Vec<GateEntry<G>>,
}

/// Some window is registered under `key`.
pub open spec fn has_gate<G>(
    gates: Seq<GateEntry<G>>,
    key: (MessageId, Option<Seq<char>>),
) -> bool {
    exists|i: int| 0 <= i < gates.len() && (#[trigger] gates[i]).key() == key
}

/// The window at `i` is the only one of request `rid`.
pub open spec fn sole_gate<G>(gates: Seq<GateEntry<G>>, rid: MessageId, i: int) -> bool {
    &&& 0 <= i < gates.len()
    &&& gates[i].rid == rid
    &&& forall|j: int| 0 <= j < gates.len() && j != i ==> (#[trigger] gates[j]).rid != rid
}

/// The window at `i` is the one that `frame` credits: the window of its stream; or,
/// where the frame names no stream and there is no window without one, the only
/// window of its request.
pub open spec fn credited<G>(gates: Seq<GateEntry<G>>, frame: Frame, i: int) -> bool {
    let key = (frame.id, opt_text(frame.stream_id));
    &&& frame.frame_type == FrameType::Credit
    &&& frame.credits is Some
    &&& 0 <= i < gates.len()
    &&& gates[i].key() == key || (!has_gate(gates, key) && frame.stream_id is None && sole_gate(
        gates,
        frame.id,
        i,
    ))
}

impl<G> CreditRouter<G> {
    /// No stream has two windows.
    pub open spec fn wf(&self) -> bool {
        forall|i: int, j: int|
            0 <= i < j < self.gates@.len() ==> (#[trigger] self.gates@[i]).key() != (
            #[trigger] self.gates@[j]).key()
    }

    /// No windows.
    pub fn new() -> (r: Self)
        ensures
            r.wf(),
            r.gates@.len() == 0,
    {
        CreditRouter { gates: Vec::new() }
    }

    /// Where the window of a stream stands.
    fn find(&self, rid: &MessageId, stream_id: &Option<String>) -> (r: Option<usize>)
        ensures
            match r {
                Some(i) => i < self.gates@.len() && self.gates@[i as int].key() == (
                    *rid,
                    opt_text(*stream_id),
                ),
                None => !has_gate(self.gates@, (*rid, opt_text(*stream_id))),
            },
    {
        let mut i: usize = 0;
        while i < self.gates.len()
            invariant
                i <= self.gates@.len(),
                forall|j: int|
                    0 <= j < i ==> (#[trigger] self.gates@[j]).key() != (*rid, opt_text(*stream_id)),
            decreases self.gates@.len() - i,
        {
            if self.gates[i].rid == *rid && same_opt(&self.gates[i].stream_id, stream_id) {
                return Some(i);
            }
            i = i + 1;
        }
        None
    }

    /// Registers the window of a stream; a window that the stream had before is
    /// replaced.
    pub fn register(&mut self, rid: MessageId, stream_id: Option<String>, gate: G)
        requires
            old(self).wf(),
        ensures
            final(self).wf(),
            has_gate(old(self).gates@, (rid, opt_text(stream_id))) ==> exists|i: int|
                0 <= i < old(self).gates@.len() && (#[trigger] old(self).gates@[i]).key() == (
                    rid,
                    opt_text(stream_id),
                ) && final(self).gates@ == old(self).gates@.update(
                    i,
                    (GateEntry { rid, stream_id, gate }),
                ),
            !has_gate(old(self).gates@, (rid, opt_text(stream_id))) ==> final(self).gates@ == old(
                self,
            ).gates@.push((GateEntry { rid, stream_id, gate })),
    {
        match self.find(&rid, &stream_id) {
            Some(i) => {
                assert(self.gates@[i as int].key() == (rid, opt_text(stream_id)));
                let entry = GateEntry { rid, stream_id, gate };
                self.gates.set(i, entry);
            },
            None => {
                let entry = GateEntry { rid, stream_id, gate };
                self.gates.push(entry);
            },
        }
    }

    /// The window that a CREDIT frame is meant for, by its place; `None` where
    /// there is no such window, or where the frame grants nothing.
    pub fn route(&self, frame: &Frame) -> (r: Option<usize>)
        requires
            self.wf(),
        ensures
            match r {
                Some(i) => credited(self.gates@, *frame, i as int),
                None => forall|i: int| !credited(self.gates@, *frame, i),
            },
    {
        if frame.frame_type != FrameType::Credit || frame.credits.is_none() {
            return None;
        }
        match self.find(&frame.id, &frame.stream_id) {
            Some(i) => {
                return Some(i);
            },
            None => {},
        }
        if frame.stream_id.is_some() {
            return None;
        }
        let mut found: Option<usize> = None;
        let mut i: usize = 0;
        while i < self.gates.len()
            invariant
                i <= self.gates@.len(),
                match found {
                    Some(k) => k < i && self.gates@[k as int].rid == frame.id && forall|j: int|
                        0 <= j < i && j != k ==> (#[trigger] self.gates@[j]).rid != frame.id,
                    None => forall|j: int|
                        0 <= j < i ==> (#[trigger] self.gates@[j]).rid != frame.id,
                },
                !has_gate(self.gates@, (frame.id, opt_text(frame.stream_id))),
                frame.frame_type == FrameType::Credit,
            decreases self.gates@.len() - i,
        {
            if self.gates[i].rid == frame.id {
                match found {
                    Some(k) => {
                        proof {
                            let a = self.gates@[i as int];
                            let b = self.gates@[k as int];
                            assert forall|t: int| !credited(self.gates@, *frame, t) by {
                                if credited(self.gates@, *frame, t) {
                                    assert(sole_gate(self.gates@, frame.id, t));
                                }
                            }
                        }
                        return None;
                    },
                    None => {
                        found = Some(i);
                    },
                }
            }
            i = i + 1;
        }
        found
    }

    /// How many windows are registered.
    pub fn len(&self) -> (r: usize)
        ensures
            r == self.gates@.len(),
    {
        self.gates.len()
    }

    /// Whether no window is registered.
    pub fn is_empty(&self) -> (r: bool)
        ensures
            r == (self.gates@.len() == 0),
    {
        self.gates.len() == 0
    }

    /// Takes out every window of a request, in the order of registration.
    pub fn take_request(&mut self, rid: &MessageId) -> (r: Vec<GateEntry<G>>)
        requires
            old(self).wf(),
        ensures
            final(self).wf(),
            final(self).gates@ == old(self).gates@.filter(|e: GateEntry<G>| e.rid != *rid),
            r@ == old(self).gates@.filter(|e: GateEntry<G>| e.rid == *rid),
    {
        let ghost all = self.gates@;
        let ghost others = |e: GateEntry<G>| e.rid != *rid;
        let ghost own = |e: GateEntry<G>| e.rid == *rid;
        let mut out: Vec<GateEntry<G>> = Vec::new();
        let mut i: usize = 0;
        let ghost mut k: int = 0;
        proof {
            assert(all.subrange(0, 0) =~= Seq::<GateEntry<G>>::empty());
            reveal(Seq::filter);
            assert(all.subrange(0, all.len() as int) =~= all);
        }
        while i < self.gates.len()
            invariant
                0 <= k <= all.len(),
                i <= self.gates@.len(),
                self.gates@.len() - i == all.len() - k,
                self.gates@.subrange(0, i as int) == all.subrange(0, k).filter(others),
                out@ == all.subrange(0, k).filter(own),
                forall|j: int| k <= j < all.len() ==> self.gates@[i + j - k] == #[trigger] all[j],
                others == (|e: GateEntry<G>| e.rid != *rid),
                own == (|e: GateEntry<G>| e.rid == *rid),
            decreases self.gates@.len() - i,
        {
            let ghost upto = all.subrange(0, k + 1);
            proof {
                reveal(Seq::filter);
                assert(upto.drop_last() =~= all.subrange(0, k));
                assert(upto.last() == all[k]);
                assert(self.gates@[i as int] == all[k]);
            }
            let ghost before = self.gates@;
            if self.gates[i].rid == *rid {
                let entry = self.gates.remove(i);
                out.push(entry);
                assert(self.gates@.subrange(0, i as int) =~= before.subrange(0, i as int));
                assert forall|j: int| k + 1 <= j < all.len() implies self.gates@[i + j - (k + 1)]
                    == #[trigger] all[j] by {
                    assert(before[i + j - k] == all[j]);
                }
            } else {
                assert(self.gates@.subrange(0, i + 1) =~= before.subrange(0, i as int).push(
                    all[k],
                ));
                i = i + 1;
            }
            proof {
                k = k + 1;
            }
        }
        proof {
            assert(all.subrange(0, all.len() as int) =~= all);
            assert(self.gates@.subrange(0, i as int) =~= self.gates@);
            lemma_filter_keeps_keys(all, others);
        }
        out
    }
}

/// Leaving windows out leaves no stream with two windows.
proof fn lemma_filter_keeps_keys<G>(all: Seq<GateEntry<G>>, keep: spec_fn(GateEntry<G>) -> bool)
    requires
        forall|i: int, j: int|
            0 <= i < j < all.len() ==> (#[trigger] all[i]).key() != (#[trigger] all[j]).key(),
    ensures
        forall|i: int, j: int|
            0 <= i < j < all.filter(keep).len() ==> (#[trigger] all.filter(keep)[i]).key() != (
            #[trigger] all.filter(keep)[j]).key(),
    decreases all.len(),
{
    reveal(Seq::filter);
    if all.len() > 0 {
        let front = all.drop_last();
        lemma_filter_keeps_keys(front, keep);
        let kept = front.filter(keep);
        assert forall|i: int, j: int| 0 <= i < j < all.filter(keep).len() implies (
        #[trigger] all.filter(keep)[i]).key() != (#[trigger] all.filter(keep)[j]).key() by {
            if j == kept.len() {
                assert(kept.contains(kept[i]));
                front.lemma_filter_contains_rev(keep, kept[i]);
                let p = front.index_of(kept[i]);
                assert(all[p].key() != all[all.len() - 1].key());
            } else {
                assert(kept[i].key() != kept[j].key());
            }
        }
    }
}

impl CreditRouter<CreditGate> {
    /// Adds a CREDIT frame's credits to the window that it is meant for; `false`
    /// where there is none, and then nothing changes.
    pub fn grant(&mut self, frame: &Frame) -> (r: bool)
        requires
            old(self).wf(),
        ensures
            final(self).wf(),
            final(self).gates@.len() == old(self).gates@.len(),
            r == (exists|i: int| credited(old(self).gates@, *frame, i)),
            forall|i: int|
                0 <= i < old(self).gates@.len() ==> {
                    &&& (#[trigger] final(self).gates@[i]).key() == old(self).gates@[i].key()
                    &&& final(self).gates@[i].gate@ == (if credited(old(self).gates@, *frame, i) {
                        old(self).gates@[i].gate@.granted(frame.credits->0 as nat)
                    } else {
                        old(self).gates@[i].gate@
                    })
                },
    {
        let ghost before = self.gates@;
        match (self.route(frame), frame.credits) {
            (Some(k), Some(credits)) => {
                self.gates[k].gate.grant(credits);
                proof {
                    assert(credited(before, *frame, k as int));
                    assert forall|i: int| 0 <= i < before.len() && i != k implies !credited(
                        before,
                        *frame,
                        i,
                    ) by {
                        if credited(before, *frame, i) {
                            if before[k as int].key() == (frame.id, opt_text(frame.stream_id)) {
                                assert(has_gate(before, (frame.id, opt_text(frame.stream_id))));
                                if i < k {
                                    assert(before[i].key() != before[k as int].key());
                                } else {
                                    assert(before[k as int].key() != before[i].key());
                                }
                            }
                        }
                    }
                }
                true
            },
            _ => false,
        }
    }

    /// Takes out and closes every window of a request; the closed windows are given
    /// back, in the order of registration.
    pub fn close_request(&mut self, rid: &MessageId, reason: &str) -> (r: Vec<GateEntry<CreditGate>>)
        requires
            old(self).wf(),
        ensures
            final(self).wf(),
            final(self).gates@ == old(self).gates@.filter(
                |e: GateEntry<CreditGate>| e.rid != *rid,
            ),
            r@.len() == old(self).gates@.filter(|e: GateEntry<CreditGate>| e.rid == *rid).len(),
            forall|i: int|
                0 <= i < r@.len() ==> {
                    let e = old(self).gates@.filter(|e: GateEntry<CreditGate>| e.rid == *rid)[i];
                    &&& (#[trigger] r@[i]).key() == e.key()
                    &&& r@[i].gate@ == e.gate@.shut(reason@)
                },
    {
        let mut out = self.take_request(rid);
        let ghost taken = out@;
        let mut i: usize = 0;
        while i < out.len()
            invariant
                i <= out@.len(),
                out@.len() == taken.len(),
                forall|j: int|
                    0 <= j < i ==> (#[trigger] out@[j]).key() == taken[j].key() && out@[j].gate@
                        == taken[j].gate@.shut(reason@),
                forall|j: int| i <= j < out@.len() ==> #[trigger] out@[j] == taken[j],
            decreases out@.len() - i,
        {
            out[i].gate.close(reason);
            i = i + 1;
        }
        out
    }
}

/// Law: as long as a window is open and nothing overflows, no credit is lost:
/// what was taken and what is left are the initial window and all grants.
pub proof fn law_no_credit_is_lost(g: GateView, ops: Seq<GateOp>)
    requires
        g.closed is None,
        forall|i: int| 0 <= i < ops.len() ==> !((#[trigger] ops[i]) is Shut),
        g.available + granted_over(ops) <= u64::MAX,
    ensures
        gate_run(g, ops).closed is None,
        taken_over(g, ops) + gate_run(g, ops).available == g.available + granted_over(ops),
    decreases ops.len(),
{
    if ops.len() > 0 {
        let rest = ops.drop_last();
        assert forall|i: int| 0 <= i < rest.len() implies !((#[trigger] rest[i]) is Shut) by {
            assert(rest[i] == ops[i]);
        }
        assert(ops[ops.len() - 1] == ops.last());
        law_no_credit_is_lost(g, rest);
    }
}

/// Law: credits are taken exactly where the window is open and has them.
pub proof fn law_credits_are_taken_where_they_are(g: GateView, n: nat)
    ensures
        g.can_take(n) <==> g.closed is None && n <= g.available,
        g.can_take(n) ==> g.taken(n).available + n == g.available && g.taken(n).closed is None,
        !g.can_take(n) ==> g.taken(n) == g,
{
}

/// Law: a window that is closed is closed for the reason that was given first.
pub proof fn law_first_reason_stays(g: GateView, first: Seq<char>, second: Seq<char>)
    requires
        g.closed is None,
    ensures
        g.shut(first).closed == Some(first),
        g.shut(first).shut(second).closed == Some(first),
{
}

/// Law: a grant reaches a window of its own request only; where it names a
/// stream, the window of that stream; and a frame that is no grant reaches none.
pub proof fn law_grant_reaches_its_own_window<G>(gates: Seq<GateEntry<G>>, frame: Frame, i: int)
    requires
        credited(gates, frame, i),
    ensures
        0 <= i < gates.len(),
        gates[i].rid == frame.id,
        frame.frame_type == FrameType::Credit,
        frame.credits is Some,
        frame.stream_id is Some ==> opt_text(gates[i].stream_id) == opt_text(frame.stream_id),
        (exists|j: int|
            0 <= j < gates.len() && (#[trigger] gates[j]).rid == frame.id && opt_text(
                gates[j].stream_id,
            ) == opt_text(frame.stream_id)) ==> opt_text(gates[i].stream_id) == opt_text(
            frame.stream_id,
        ),
{
    let key = (frame.id, opt_text(frame.stream_id));
    if exists|j: int|
        0 <= j < gates.len() && (#[trigger] gates[j]).rid == frame.id && opt_text(
            gates[j].stream_id,
        ) == opt_text(frame.stream_id) {
        let j = choose|j: int|
            0 <= j < gates.len() && (#[trigger] gates[j]).rid == frame.id && opt_text(
                gates[j].stream_id,
            ) == opt_text(frame.stream_id);
        assert(gates[j].key() == key);
        assert(has_gate(gates, key));
    }
}

} // verus!
