//! What the device backends share: platforms, failures of opening, and the
//! clock of a stream.

use crate::bifaci::live_feed::RuntimeError;
use crate::text::{add_text, owned};
use vstd::arithmetic::div_mod::lemma_fundamental_div_mod_converse;
use vstd::prelude::*;

verus! {

broadcast use vstd::string::group_string_axioms;

/// The platforms that devices are opened on.
#[derive(Debug, Clone, Copy, PartialEq, Eq, Structural)]
pub enum Platform {
    Linux,
    MacOs,
    Other,
}

/// How opening a device can fail.
#[derive(Debug)]
pub enum OpenFailure {
    /// The input format is not built in.
    NoInputFormat { format_name: String },
    /// The device's name holds a NUL.
    NameHoldsNul,
    /// A call failed, for this reason.
    Call { what: String, reason: String },
    /// The device has no stream of this medium.
    NoStream { medium: String },
    /// There is no decoder for the device's codec.
    NoDecoder,
}

/// The message for a device that could not be opened; `kind` is the kind of
/// device.
pub open spec fn open_failure_text(
    failure: OpenFailure,
    kind: Seq<char>,
    device: Seq<char>,
) -> Seq<char> {
    match failure {
        OpenFailure::NoInputFormat { format_name } => "avdevice input format '"@ + format_name@
            + "' is not built into this ffmpeg — regenerate the ffmpeg-bundle dist with --enable-avdevice"@,
        OpenFailure::NameHoldsNul => "device name contains NUL"@,
        OpenFailure::Call { what, reason } => kind + " '"@ + device + "': "@ + what@ + " failed: "@
            + reason@,
        OpenFailure::NoStream { medium } => kind + " '"@ + device + "': the device exposes no "@
            + medium@ + " stream"@,
        OpenFailure::NoDecoder => kind + " '"@ + device + "': no decoder for the device's codec"@,
    }
}

/// The error for a device that could not be opened.
pub fn open_error(failure: &OpenFailure, kind: &str, device: &str) -> (r: RuntimeError)
    ensures
        r.message() == open_failure_text(*failure, kind@, device@),
{
    let text = match failure {
        OpenFailure::NoInputFormat { format_name } => {
            let mut t = owned("avdevice input format '");
            add_text(&mut t, format_name);
            add_text(
                &mut t,
                "' is not built into this ffmpeg — regenerate the ffmpeg-bundle dist with --enable-avdevice",
            );
            t
        },
        OpenFailure::NameHoldsNul => owned("device name contains NUL"),
        OpenFailure::Call { what, reason } => {
            let mut t = owned(kind);
            add_text(&mut t, " '");
            add_text(&mut t, device);
            add_text(&mut t, "': ");
            add_text(&mut t, what);
            add_text(&mut t, " failed: ");
            add_text(&mut t, reason);
            t
        },
        OpenFailure::NoStream { medium } => {
            let mut t = owned(kind);
            add_text(&mut t, " '");
            add_text(&mut t, device);
            add_text(&mut t, "': the device exposes no ");
            add_text(&mut t, medium);
            add_text(&mut t, " stream");
            t
        },
        OpenFailure::NoDecoder => {
            let mut t = owned(kind);
            add_text(&mut t, " '");
            add_text(&mut t, device);
            add_text(&mut t, "': no decoder for the device's codec");
            t
        },
    };
    RuntimeError::Handler(text)
}

/// The first stream of the wanted medium, by its place; `wanted` tells for each
/// stream whether it is one.
pub fn first_stream(wanted: &Vec<bool>) -> (r: Option<usize>)
    ensures
        match r {
            Some(i) => i < wanted@.len() && wanted@[i as int] && forall|j: int|
                0 <= j < i ==> !wanted@[j],
            None => forall|j: int| 0 <= j < wanted@.len() ==> !wanted@[j],
        },
{
    let mut i: usize = 0;
    while i < wanted.len()
        invariant
            i <= wanted@.len(),
            forall|j: int| 0 <= j < i ==> !wanted@[j],
        decreases wanted@.len() - i,
    {
        if wanted[i] {
            return Some(i);
        }
        i = i + 1;
    }
    None
}

/// The quotient rounded toward zero.
pub open spec fn quotient(a: int, b: int) -> int {
    if a >= 0 {
        a / b
    } else {
        -((-a) / b)
    }
}

/// The 64 low bits of a number, as a number that is not negative.
pub open spec fn low_bits(n: int) -> int {
    n % 0x1_0000_0000_0000_0000
}

/// `pts` ticks of `num / den` seconds in microseconds, rounded toward zero; of
/// a number that does not fit, the low bits.
pub fn ticks_to_us(pts: i64, num: i32, den: i32) -> (r: u64)
    requires
        den > 0,
    ensures
        r == low_bits(quotient(pts * num * 1_000_000, den as int)),
{
    let p: u128 = if pts < 0 {
        (-(pts as i128)) as u128
    } else {
        pts as u128
    };
    let n: u128 = if num < 0 {
        (-(num as i128)) as u128
    } else {
        num as u128
    };
    let negative = (pts < 0) != (num < 0);
    assert(p * n <= 0x8000_0000_0000_0000 * 0x8000_0000) by (nonlinear_arith)
        requires
            p <= 0x8000_0000_0000_0000,
            n <= 0x8000_0000,
    ;
    let magnitude: u128 = p * n * 1_000_000;
    let q: u128 = magnitude / (den as u128);
    let low: u64 = (q % 0x1_0000_0000_0000_0000u128) as u64;
    proof {
        if pts < 0 && num < 0 {
            assert(pts * num == (-pts) * (-num)) by (nonlinear_arith);
        } else if pts < 0 {
            assert(pts * num == -((-pts) * num)) by (nonlinear_arith);
        } else if num < 0 {
            assert(pts * num == -(pts * (-num))) by (nonlinear_arith);
        }
        assert(pts * num * 1_000_000 == (if negative {
            -(magnitude as int)
        } else {
            magnitude as int
        }));
    }
    if negative {
        proof {
            let m: int = 0x1_0000_0000_0000_0000;
            let qi = q as int;
            if magnitude > 0 {
                assert(quotient(-(magnitude as int), den as int) == -qi);
            } else {
                assert(qi == 0) by (nonlinear_arith)
                    requires
                        qi == 0int / (den as int),
                        den > 0,
                ;
            }
            assert(low_bits(-qi) == (if low == 0 {
                0
            } else {
                m - low
            })) by {
                lemma_negated_low_bits(qi);
            }
        }
        0u64.wrapping_sub(low)
    } else {
        low
    }
}

/// The low bits of a negated number.
proof fn lemma_negated_low_bits(q: int)
    requires
        q >= 0,
    ensures
        low_bits(-q) == (if low_bits(q) == 0 {
            0
        } else {
            0x1_0000_0000_0000_0000 - low_bits(q)
        }),
{
    let m: int = 0x1_0000_0000_0000_0000;
    let k = q / m;
    let l = q % m;
    assert(q == k * m + l) by (nonlinear_arith)
        requires
            m > 0,
            k == q / m,
            l == q % m,
    ;
    if l == 0 {
        assert(-q == (-k) * m + 0) by (nonlinear_arith)
            requires
                q == k * m + 0,
        ;
        lemma_fundamental_div_mod_converse(-q, m, -k, 0);
    } else {
        assert(-q == (-k - 1) * m + (m - l)) by (nonlinear_arith)
            requires
                q == k * m + l,
        ;
        lemma_fundamental_div_mod_converse(-q, m, -k - 1, m - l);
    }
}

/// Law: a quotient is rounded toward zero.
pub proof fn law_quotient_is_rounded_toward_zero(a: int, b: int)
    requires
        b > 0,
    ensures
        a >= 0 ==> quotient(a, b) * b <= a < (quotient(a, b) + 1) * b,
        a < 0 ==> (quotient(a, b) - 1) * b < a <= quotient(a, b) * b,
{
    if a >= 0 {
        let q = a / b;
        assert(q * b <= a < (q + 1) * b) by (nonlinear_arith)
            requires
                q == a / b,
                b > 0,
        ;
    } else {
        let n = -a;
        let q = n / b;
        assert(q * b <= n < (q + 1) * b) by (nonlinear_arith)
            requires
                q == n / b,
                b > 0,
        ;
        assert((-q - 1) * b == -((q + 1) * b)) by (nonlinear_arith);
        assert((-q) * b == -(q * b)) by (nonlinear_arith);
    }
}

} // verus!
