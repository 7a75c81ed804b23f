//! The reading side of a local socket whose bytes arrive in chunks: a reader
//! gets as much as it has room for, and the rest waits.

use crate::text::{add_text, decimal, decimal_text, decimal_text_wide, owned};
use std::collections::VecDeque;
use vstd::prelude::*;

verus! {

broadcast use vstd::string::group_string_axioms;

/// The bytes that have arrived and were not read yet.
#[derive(Debug)]
pub struct ReadBuffer {
    pub pending: VecDeque<u8>,
}

/// What the socket has to say.
#[derive(Debug)]
pub enum Arrival {
    /// Nothing for now.
    Nothing,
    /// No more bytes will come.
    Ended,
    Bytes(Vec<u8>),
    /// Reading failed.
    Failed,
}

/// What a reader is told.
#[derive(Debug, Clone, Copy, PartialEq, Eq, Structural)]
pub enum ReadOutcome {
    /// To wait.
    Pending,
    /// That what it was given is all for now.
    Ready,
    /// That reading failed.
    Failed,
}

/// The smaller of two lengths.
pub open spec fn shorter(a: nat, b: nat) -> int {
    if a < b {
        a as int
    } else {
        b as int
    }
}

impl View for ReadBuffer {
    type V = Seq<u8>;

    open spec fn view(&self) -> Seq<u8> {
        self.pending@
    }
}

impl ReadBuffer {
    /// Nothing has arrived.
    pub fn new() -> (r: Self)
        ensures
            r@ == Seq::<u8>::empty(),
    {
        ReadBuffer { pending: VecDeque::new() }
    }

    /// Gives out the bytes that wait, as far as there is room.
    pub fn take(&mut self, room: usize) -> (r: Vec<u8>)
        ensures
            r@ == old(self)@.subrange(0, shorter(old(self)@.len(), room as nat)),
            final(self)@ == old(self)@.subrange(
                shorter(old(self)@.len(), room as nat),
                old(self)@.len() as int,
            ),
    {
        let ghost before = self@;
        let mut out: Vec<u8> = Vec::new();
        assert(before.subrange(0, before.len() as int) =~= before);
        while out.len() < room && self.pending.len() > 0
            invariant
                before == old(self)@,
                out@.len() <= room,
                out@.len() <= before.len(),
                out@ == before.subrange(0, out@.len() as int),
                self@ == before.subrange(out@.len() as int, before.len() as int),
            decreases self@.len(),
        {
            let ghost n = out@.len() as int;
            match self.pending.pop_front() {
                Some(byte) => {
                    out.push(byte);
                    assert(out@ =~= before.subrange(0, n + 1));
                    assert(self@ =~= before.subrange(n + 1, before.len() as int));
                },
                None => {
                    return out;
                },
            }
        }
        out
    }

    /// Goes on after [`ReadBuffer::take`] has left nothing waiting: what has
    /// arrived is given out as far as there is room, and the rest waits. A
    /// reader with nothing at all (`has_bytes` is false) is told to wait until
    /// something comes.
    pub fn receive(&mut self, room: usize, has_bytes: bool, arrival: Arrival) -> (r: (
        Vec<u8>,
        ReadOutcome,
    ))
        requires
            old(self)@.len() == 0,
        ensures
            match arrival {
                Arrival::Bytes(bytes) => {
                    &&& r.1 == ReadOutcome::Ready
                    &&& r.0@ == bytes@.subrange(0, shorter(bytes@.len(), room as nat))
                    &&& final(self)@ == bytes@.subrange(
                        shorter(bytes@.len(), room as nat),
                        bytes@.len() as int,
                    )
                },
                _ => {
                    &&& r.0@.len() == 0
                    &&& final(self)@ == old(self)@
                    &&& r.1 == match arrival {
                        Arrival::Nothing => if has_bytes {
                            ReadOutcome::Ready
                        } else {
                            ReadOutcome::Pending
                        },
                        Arrival::Failed => ReadOutcome::Failed,
                        _ => ReadOutcome::Ready,
                    }
                },
            },
    {
        match arrival {
            Arrival::Nothing => {
                if has_bytes {
                    (Vec::new(), ReadOutcome::Ready)
                } else {
                    (Vec::new(), ReadOutcome::Pending)
                }
            },
            Arrival::Ended => (Vec::new(), ReadOutcome::Ready),
            Arrival::Failed => (Vec::new(), ReadOutcome::Failed),
            Arrival::Bytes(bytes) => {
                let mut i: usize = 0;
                while i < bytes.len()
                    invariant
                        i <= bytes@.len(),
                        self@ == bytes@.subrange(0, i as int),
                    decreases bytes@.len() - i,
                {
                    self.pending.push_back(bytes[i]);
                    i = i + 1;
                    assert(self@ =~= bytes@.subrange(0, i as int));
                }
                assert(bytes@.subrange(0, bytes@.len() as int) =~= bytes@);
                let out = self.take(room);
                (out, ReadOutcome::Ready)
            },
        }
    }
}

/// Law: bytes come out as they came in. What a reader is given, followed by what
/// still waits, is what waited before.
pub proof fn law_no_byte_is_lost(waiting: Seq<u8>, room: nat)
    ensures
        waiting.subrange(0, shorter(waiting.len(), room)) + waiting.subrange(
            shorter(waiting.len(), room),
            waiting.len() as int,
        ) == waiting,
        waiting.subrange(0, shorter(waiting.len(), room)).len() <= room,
        shorter(waiting.len(), room) < waiting.len() ==> waiting.subrange(
            0,
            shorter(waiting.len(), room),
        ).len() == room,
{
    assert(waiting.subrange(0, shorter(waiting.len(), room)) + waiting.subrange(
        shorter(waiting.len(), room),
        waiting.len() as int,
    ) =~= waiting);
}

/// The name of a socket that only this process uses.
pub fn socket_name(process_id: u32, nonce: u128) -> (r: String)
    ensures
        r@ == "machinefabric-"@ + decimal(process_id as nat) + "-"@ + decimal(nonce as nat)
            + ".sock"@,
{
    let mut out = owned("machinefabric-");
    add_text(&mut out, &decimal_text(process_id as u64));
    add_text(&mut out, "-");
    add_text(&mut out, &decimal_text_wide(nonce));
    add_text(&mut out, ".sock");
    out
}

} // verus!
