//! Frames as the bookkeeping sees them: identities, types, and the few fields
//! that are counted or routed on.

use crate::text::{add_text, decimal, decimal_text, hex_digit, hex_value};
use vstd::prelude::*;

verus! {

broadcast use vstd::string::group_string_axioms;

/// The identity of a message: a UUID, as its 128 bits, or a number.
#[derive(Debug, Clone, Copy, PartialEq, Eq, Hash, Structural)]
pub enum MessageId {
    Uuid(u128),
    Uint(u64),
}

/// The `k` lowest hexadecimal digits of `n`, highest first.
pub open spec fn hex_digits(n: nat, k: nat) -> Seq<char>
    decreases k,
{
    if k == 0 {
        Seq::empty()
    } else {
        hex_digits(n / 16, (k - 1) as nat).push(hex_digit((n % 16) as int))
    }
}

/// The UUID form of 128 bits: groups of 8, 4, 4, 4 and 12 hexadecimal digits.
pub open spec fn uuid_text(n: nat) -> Seq<char> {
    let h = hex_digits(n, 32);
    h.subrange(0, 8) + seq!['-'] + h.subrange(8, 12) + seq!['-'] + h.subrange(12, 16) + seq!['-']
        + h.subrange(16, 20) + seq!['-'] + h.subrange(20, 32)
}

/// The text of an identity: the UUID form, or the number in decimal.
pub open spec fn message_id_text(id: MessageId) -> Seq<char> {
    match id {
        MessageId::Uuid(n) => uuid_text(n as nat),
        MessageId::Uint(n) => decimal(n as nat),
    }
}

proof fn lemma_hex_digits_len(n: nat, k: nat)
    ensures
        hex_digits(n, k).len() == k,
    decreases k,
{
    if k > 0 {
        lemma_hex_digits_len(n / 16, (k - 1) as nat);
    }
}

/// The `k` lowest hexadecimal digits of `n`, highest first.
fn hex_chars(n: u128, k: u8) -> (r: Vec<char>)
    ensures
        r@ == hex_digits(n as nat, k as nat),
    decreases k,
{
    if k == 0 {
        Vec::new()
    } else {
        let mut out = hex_chars(n / 16, k - 1);
        let d: u8 = (n % 16) as u8;
        if d < 10 {
            out.push((48u8 + d) as char);
        } else {
            out.push((87u8 + d) as char);
        }
        out
    }
}

impl MessageId {
    /// The text of the identity.
    pub fn to_string(&self) -> (r: String)
        ensures
            r@ == message_id_text(*self),
    {
        match *self {
            MessageId::Uint(n) => decimal_text(n),
            MessageId::Uuid(n) => {
                let h = hex_chars(n, 32);
                proof {
                    lemma_hex_digits_len(n as nat, 32);
                }
                let mut out = crate::text::text_between(&h, 0, 8);
                out.push('-');
                add_text(&mut out, &crate::text::text_between(&h, 8, 12));
                out.push('-');
                add_text(&mut out, &crate::text::text_between(&h, 12, 16));
                out.push('-');
                add_text(&mut out, &crate::text::text_between(&h, 16, 20));
                out.push('-');
                add_text(&mut out, &crate::text::text_between(&h, 20, 32));
                assert(out@ =~= uuid_text(n as nat));
                out
            },
        }
    }
}

/// The frame types that are counted, in the order of their names.
#[derive(Debug, Clone, Copy, PartialEq, Eq, Structural)]
pub enum FrameType {
    Chunk,
    Credit,
    End,
    Error,
    Log,
    Req,
    StreamEnd,
    StreamStart,
}

/// How many frame types there are.
pub const FRAME_TYPES: usize = 8;

impl FrameType {
    /// The type's place among all types.
    pub open spec fn place(self) -> int {
        match self {
            FrameType::Chunk => 0,
            FrameType::Credit => 1,
            FrameType::End => 2,
            FrameType::Error => 3,
            FrameType::Log => 4,
            FrameType::Req => 5,
            FrameType::StreamEnd => 6,
            FrameType::StreamStart => 7,
        }
    }

    /// The type at a place.
    pub open spec fn nth(i: int) -> FrameType {
        if i == 0 {
            FrameType::Chunk
        } else if i == 1 {
            FrameType::Credit
        } else if i == 2 {
            FrameType::End
        } else if i == 3 {
            FrameType::Error
        } else if i == 4 {
            FrameType::Log
        } else if i == 5 {
            FrameType::Req
        } else if i == 6 {
            FrameType::StreamEnd
        } else {
            FrameType::StreamStart
        }
    }

    /// The type's name.
    pub open spec fn name(self) -> Seq<char> {
        match self {
            FrameType::Chunk => "chunk"@,
            FrameType::Credit => "credit"@,
            FrameType::End => "end"@,
            FrameType::Error => "err"@,
            FrameType::Log => "log"@,
            FrameType::Req => "req"@,
            FrameType::StreamEnd => "stream_end"@,
            FrameType::StreamStart => "stream_start"@,
        }
    }

    /// The type's place among all types.
    pub fn index(self) -> (r: usize)
        ensures
            r == self.place(),
            r < FRAME_TYPES,
    {
        match self {
            FrameType::Chunk => 0,
            FrameType::Credit => 1,
            FrameType::End => 2,
            FrameType::Error => 3,
            FrameType::Log => 4,
            FrameType::Req => 5,
            FrameType::StreamEnd => 6,
            FrameType::StreamStart => 7,
        }
    }

    /// The type at a place.
    pub fn at(i: usize) -> (r: FrameType)
        requires
            i < FRAME_TYPES,
        ensures
            r == FrameType::nth(i as int),
            r.place() == i,
    {
        match i {
            0 => FrameType::Chunk,
            1 => FrameType::Credit,
            2 => FrameType::End,
            3 => FrameType::Error,
            4 => FrameType::Log,
            5 => FrameType::Req,
            6 => FrameType::StreamEnd,
            _ => FrameType::StreamStart,
        }
    }

    /// The type's name.
    pub fn as_str(&self) -> (r: &'static str)
        ensures
            r@ == self.name(),
    {
        match self {
            FrameType::Chunk => "chunk",
            FrameType::Credit => "credit",
            FrameType::End => "end",
            FrameType::Error => "err",
            FrameType::Log => "log",
            FrameType::Req => "req",
            FrameType::StreamEnd => "stream_end",
            FrameType::StreamStart => "stream_start",
        }
    }
}

/// Why a frame was dropped, in the order of the names.
#[derive(Debug, Clone, Copy, PartialEq, Eq, Structural)]
pub enum DropReason {
    Cancelled,
    ChannelClosed,
    NoRoute,
}

/// How many reasons there are.
pub const DROP_REASONS: usize = 3;

impl DropReason {
    /// The reason's place among all reasons.
    pub open spec fn place(self) -> int {
        match self {
            DropReason::Cancelled => 0,
            DropReason::ChannelClosed => 1,
            DropReason::NoRoute => 2,
        }
    }

    /// The reason at a place.
    pub open spec fn nth(i: int) -> DropReason {
        if i == 0 {
            DropReason::Cancelled
        } else if i == 1 {
            DropReason::ChannelClosed
        } else {
            DropReason::NoRoute
        }
    }

    /// The reason's name.
    pub open spec fn name(self) -> Seq<char> {
        match self {
            DropReason::Cancelled => "cancelled"@,
            DropReason::ChannelClosed => "channel_closed"@,
            DropReason::NoRoute => "no_route"@,
        }
    }

    /// The reason's place among all reasons.
    pub fn index(self) -> (r: usize)
        ensures
            r == self.place(),
            r < DROP_REASONS,
    {
        match self {
            DropReason::Cancelled => 0,
            DropReason::ChannelClosed => 1,
            DropReason::NoRoute => 2,
        }
    }

    /// The reason at a place.
    pub fn at(i: usize) -> (r: DropReason)
        requires
            i < DROP_REASONS,
        ensures
            r == DropReason::nth(i as int),
            r.place() == i,
    {
        match i {
            0 => DropReason::Cancelled,
            1 => DropReason::ChannelClosed,
            _ => DropReason::NoRoute,
        }
    }

    /// The reason's name.
    pub fn as_str(&self) -> (r: &'static str)
        ensures
            r@ == self.name(),
    {
        match self {
            DropReason::Cancelled => "cancelled",
            DropReason::ChannelClosed => "channel_closed",
            DropReason::NoRoute => "no_route",
        }
    }
}

/// The key of a flow: the request, and the routing identity where it has one.
#[derive(Debug, Clone, Copy, PartialEq, Eq, Hash, Structural)]
pub struct FlowKey {
    pub rid: MessageId,
    pub xid: Option<MessageId>,
}

/// A frame, as far as it is counted and routed here.
#[derive(Debug, PartialEq, Eq)]
pub struct Frame {
    pub frame_type: FrameType,
    pub id: MessageId,
    /// The stream the frame belongs to; `None` for frames of the request itself.
    pub stream_id: Option<String>,
    pub payload: Option<Vec<u8>>,
    /// How many credits a CREDIT frame grants.
    pub credits: Option<u64>,
    /// Set on a STREAM_START that promises no length.
    pub unbounded: bool,
    /// Whether the frame belongs to the request's flow.
    pub flow: bool,
}

impl Frame {
    /// The length of the payload; 0 where there is none.
    pub open spec fn payload_len(&self) -> nat {
        match self.payload {
            Some(p) => p@.len(),
            None => 0,
        }
    }
}

/// The number that hexadecimal digits stand for.
pub open spec fn hex_number(s: Seq<char>) -> nat
    decreases s.len(),
{
    if s.len() == 0 {
        0
    } else {
        16 * hex_number(s.drop_last()) + hex_value(s.last()) as nat
    }
}

/// The powers of sixteen.
pub open spec fn pow16(n: nat) -> nat
    decreases n,
{
    if n == 0 {
        1
    } else {
        16 * pow16((n - 1) as nat)
    }
}

proof fn lemma_hex_number(n: nat, k: nat)
    requires
        n < pow16(k),
    ensures
        hex_number(hex_digits(n, k)) == n,
    decreases k,
{
    if k > 0 {
        let p = pow16((k - 1) as nat);
        assert(n / 16 < p) by (nonlinear_arith)
            requires
                n < 16 * p,
        ;
        lemma_hex_number(n / 16, (k - 1) as nat);
        let d = (n % 16) as int;
        let s = hex_digits(n, k);
        assert(s.drop_last() =~= hex_digits(n / 16, (k - 1) as nat));
        assert(s.last() == hex_digit(d));
        assert(hex_value(hex_digit(d)) == d);
    }
}

/// Law: the text of a UUID has its dashes behind the digits of its first four
/// groups, and its digits stand for its bits.
pub proof fn law_uuid_text_stands_for_its_bits(n: u128)
    ensures
        ({
            let t = message_id_text(MessageId::Uuid(n));
            &&& t.len() == 36
            &&& t[8] == '-' && t[13] == '-' && t[18] == '-' && t[23] == '-'
            &&& hex_number(
                t.subrange(0, 8) + t.subrange(9, 13) + t.subrange(14, 18) + t.subrange(19, 23)
                    + t.subrange(24, 36),
            ) == n
        }),
{
    let h = hex_digits(n as nat, 32);
    lemma_hex_digits_len(n as nat, 32);
    reveal_with_fuel(pow16, 33);
    assert(pow16(32) == 0x1_0000_0000_0000_0000_0000_0000_0000_0000nat);
    lemma_hex_number(n as nat, 32);
    let t = uuid_text(n as nat);
    assert(t.subrange(0, 8) + t.subrange(9, 13) + t.subrange(14, 18) + t.subrange(19, 23)
        + t.subrange(24, 36) =~= h);
}

/// Law: the types of frames and the reasons for drops are told apart by place and
/// by name.
pub proof fn law_types_and_reasons_are_told_apart(
    a: FrameType,
    b: FrameType,
    x: DropReason,
    y: DropReason,
)
    ensures
        FrameType::nth(a.place()) == a,
        a.name() == b.name() ==> a == b,
        DropReason::nth(x.place()) == x,
        x.name() == y.name() ==> x == y,
{
    reveal_strlit("chunk");
    reveal_strlit("credit");
    reveal_strlit("end");
    reveal_strlit("err");
    reveal_strlit("log");
    reveal_strlit("req");
    reveal_strlit("stream_end");
    reveal_strlit("stream_start");
    reveal_strlit("cancelled");
    reveal_strlit("channel_closed");
    reveal_strlit("no_route");
    assert("end"@[1] != "err"@[1] && "end"@[0] != "log"@[0] && "end"@[0] != "req"@[0]);
    assert("err"@[0] != "log"@[0] && "err"@[0] != "req"@[0] && "log"@[0] != "req"@[0]);
    if a.name() == b.name() {
        assert(a.name().len() == b.name().len());
    }
    if x.name() == y.name() {
        assert(x.name().len() == y.name().len());
    }
}

} // verus!
