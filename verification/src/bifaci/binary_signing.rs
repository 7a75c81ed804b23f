//! Signatures of cartridge binaries.
//!
//! A binary is signed in the minisign format. Certificates and manifests are
//! signed with raw ed25519 over their exact bytes, under keys that are written
//! in the minisign format too.

use crate::text::{
    add_text, decimal, decimal_text, hex, hex_lower, owned, pieces, split_at_char, texts, trim,
    trimmed,
};
use ed25519_dalek::Verifier;
use vstd::prelude::*;
use vstd::slice::slice_subrange;
use vstd::utf8::{encode_utf8, is_ascii_chars, is_ascii_chars_encode_utf8};

verus! {

broadcast use vstd::string::group_string_axioms;

/// Why a signature was not accepted.
#[derive(Debug, PartialEq, Eq)]
pub enum SignatureError {
    /// The public key cannot be decoded.
    MalformedPublicKey(String),
    /// The signature cannot be decoded.
    MalformedSignature(String),
    /// The signature does not sign these bytes with this key.
    VerificationFailed(String),
}

impl SignatureError {
    /// The error as a message.
    pub open spec fn message(self) -> Seq<char> {
        match self {
            SignatureError::MalformedPublicKey(s) => "malformed cartridge signing public key: "@
                + s@,
            SignatureError::MalformedSignature(s) => "malformed cartridge binary signature: "@ + s@,
            SignatureError::VerificationFailed(s) =>
                "cartridge binary signature verification failed: "@ + s@,
        }
    }

    /// The error as a message.
    pub fn to_string(&self) -> (r: String)
        ensures
            r@ == self.message(),
    {
        let (head, tail) = match self {
            SignatureError::MalformedPublicKey(s) => (
                "malformed cartridge signing public key: ",
                s,
            ),
            SignatureError::MalformedSignature(s) => ("malformed cartridge binary signature: ", s),
            SignatureError::VerificationFailed(s) => (
                "cartridge binary signature verification failed: ",
                s,
            ),
        };
        let mut out = owned(head);
        add_text(&mut out, tail);
        out
    }
}

/// A check's outcome in the model.
pub open spec fn outcome(r: Result<(), String>) -> Result<(), Seq<char>> {
    match r {
        Ok(()) => Ok(()),
        Err(e) => Err(e@),
    }
}

/// The result is an error of the given kind and text, or none.
pub open spec fn judged(
    r: Result<(), SignatureError>,
    key: Result<(), Seq<char>>,
    signature: Result<(), Seq<char>>,
    verification: Result<(), Seq<char>>,
) -> bool {
    match (key, signature, verification) {
        (Err(e), _, _) => r matches Err(SignatureError::MalformedPublicKey(s)) && s@ == e,
        (Ok(()), Err(e), _) => r matches Err(SignatureError::MalformedSignature(s)) && s@ == e,
        (Ok(()), Ok(()), Err(e)) => r matches Err(SignatureError::VerificationFailed(s)) && s@ == e,
        (Ok(()), Ok(()), Ok(())) => r is Ok,
    }
}

/// The verdict on a signature, from the three checks: the key is decoded first,
/// then the signature, then the signature is verified.
pub fn judge_signature(
    key: Result<(), String>,
    signature: Result<(), String>,
    verification: Result<(), String>,
) -> (r: Result<(), SignatureError>)
    ensures
        judged(r, outcome(key), outcome(signature), outcome(verification)),
{
    match key {
        Err(e) => {
            return Err(SignatureError::MalformedPublicKey(e));
        },
        Ok(()) => {},
    }
    match signature {
        Err(e) => {
            return Err(SignatureError::MalformedSignature(e));
        },
        Ok(()) => {},
    }
    match verification {
        Err(e) => Err(SignatureError::VerificationFailed(e)),
        Ok(()) => Ok(()),
    }
}

// ---------------------------------------------------------------------------
// minisign
// ---------------------------------------------------------------------------

/// Whether a text is a minisign public key, or why not.
pub uninterp spec fn minisign_key(text: Seq<char>) -> Result<(), Seq<char>>;

/// `minisign_verify::PublicKey::from_base64`: whether the text decodes, and the
/// error's text, are functions of the text alone.
#[verifier::external_body]
fn check_minisign_key(text: &str) -> (r: Result<(), String>)
    ensures
        outcome(r) == minisign_key(text@),
{
    match minisign_verify::PublicKey::from_base64(text) {
        Ok(_) => Ok(()),
        Err(e) => Err(e.to_string()),
    }
}

/// Whether a text is a minisign signature, or why not.
pub uninterp spec fn minisign_signature(text: Seq<char>) -> Result<(), Seq<char>>;

/// `minisign_verify::Signature::decode`: whether the text decodes, and the
/// error's text, are functions of the text alone.
#[verifier::external_body]
fn check_minisign_signature(text: &str) -> (r: Result<(), String>)
    ensures
        outcome(r) == minisign_signature(text@),
{
    match minisign_verify::Signature::decode(text) {
        Ok(_) => Ok(()),
        Err(e) => Err(e.to_string()),
    }
}

/// Whether a minisign signature signs the bytes with the key, or why not.
pub uninterp spec fn minisign_verdict(
    key: Seq<char>,
    signature: Seq<char>,
    bytes: Seq<u8>,
) -> Result<(), Seq<char>>;

/// `minisign_verify::PublicKey::verify` without the legacy algorithm: the
/// outcome is a function of the key, the signature and the bytes alone. Both
/// texts decode.
#[verifier::external_body]
fn minisign_verify(key: &str, signature: &str, bytes: &[u8]) -> (r: Result<(), String>)
    requires
        minisign_key(key@) is Ok,
        minisign_signature(signature@) is Ok,
    ensures
        outcome(r) == minisign_verdict(key@, signature@, bytes@),
{
    let key = minisign_verify::PublicKey::from_base64(key).map_err(|e| e.to_string())?;
    let signature = minisign_verify::Signature::decode(signature).map_err(|e| e.to_string())?;
    key.verify(bytes, &signature, false).map_err(|e| e.to_string())
}

/// Verifies a minisign signature over the bytes. White space around the key and
/// the signature does not count.
pub fn verify_binary_signature(pubkey_b64: &str, signature_text: &str, bytes: &[u8]) -> (r: Result<
    (),
    SignatureError,
>)
    ensures
        judged(
            r,
            minisign_key(trimmed(pubkey_b64@)),
            minisign_signature(trimmed(signature_text@)),
            minisign_verdict(trimmed(pubkey_b64@), trimmed(signature_text@), bytes@),
        ),
{
    let key_text = trim(pubkey_b64);
    let signature_text = trim(signature_text);
    let key = check_minisign_key(&key_text);
    let signature = check_minisign_signature(&signature_text);
    if key.is_err() || signature.is_err() {
        return judge_signature(key, signature, Ok(()));
    }
    let verification = minisign_verify(&key_text, &signature_text, bytes);
    judge_signature(key, signature, verification)
}

// ---------------------------------------------------------------------------
// Values of a build
// ---------------------------------------------------------------------------

/// The root keys of a build: `None` for a development build. A value that is
/// set but empty is neither, and is not allowed.
pub fn root_pubkeys_from_build_env(raw: Option<&'static str>) -> (r: Option<&'static str>)
    requires
        raw is Some ==> raw->0@.len() > 0,
    ensures
        r == raw,
{
    raw
}

/// The environment that a build's certificates are bound to: `None` for a
/// development build. A value that is set but empty is not allowed.
pub fn signing_environment_from_build_env(raw: Option<&'static str>) -> (r: Option<&'static str>)
    requires
        raw is Some ==> raw->0@.len() > 0,
    ensures
        r == raw,
{
    raw
}

/// The keys of a list that is separated by commas.
pub open spec fn root_keys(baked: Seq<char>) -> Seq<Seq<char>> {
    pieces(baked, ',').map_values(|s: Seq<char>| trimmed(s)).filter(|s: Seq<char>| s.len() > 0)
}

/// The keys of a list that is separated by commas, without the white space
/// around them; empty keys are left out.
pub fn split_root_pubkeys(baked: &str) -> (r: Vec<String>)
    ensures
        texts(r@) == root_keys(baked@),
{
    let parts = split_at_char(baked, ',');
    let ghost all = texts(parts@).map_values(|s: Seq<char>| trimmed(s));
    let ghost keep = |s: Seq<char>| s.len() > 0;
    let mut out: Vec<String> = Vec::new();
    let mut i: usize = 0;
    proof {
        reveal(Seq::filter);
        assert(all.subrange(0, 0) =~= Seq::<Seq<char>>::empty());
        assert(texts(out@) =~= Seq::<Seq<char>>::empty());
    }
    while i < parts.len()
        invariant
            i <= parts@.len(),
            all == texts(parts@).map_values(|s: Seq<char>| trimmed(s)),
            keep == (|s: Seq<char>| s.len() > 0),
            texts(out@) == all.subrange(0, i as int).filter(keep),
        decreases parts@.len() - i,
    {
        let key = trim(&parts[i]);
        let ghost kv = key@;
        let ghost before = texts(out@);
        proof {
            reveal(Seq::filter);
            assert(all.subrange(0, i + 1).drop_last() =~= all.subrange(0, i as int));
            assert(all.subrange(0, i + 1).last() == kv);
        }
        if !key.as_str().is_empty() {
            out.push(key);
            assert(texts(out@) =~= before.push(kv));
        }
        i = i + 1;
    }
    assert(all.subrange(0, all.len() as int) =~= all);
    out
}

// ---------------------------------------------------------------------------
// Base64
// ---------------------------------------------------------------------------

/// The number that a base64 digit stands for.
pub open spec fn digit_value(c: u8) -> Option<int> {
    if 65 <= c <= 90 {
        Some(c - 65)
    } else if 97 <= c <= 122 {
        Some(c - 71)
    } else if 48 <= c <= 57 {
        Some(c + 4)
    } else if c == 43 {
        Some(62)
    } else if c == 47 {
        Some(63)
    } else {
        None
    }
}

/// How many `=` stand at the end, two at most.
pub open spec fn padding(s: Seq<u8>) -> int {
    let n = s.len() as int;
    if n >= 1 && s[n - 1] == 61 {
        if n >= 2 && s[n - 2] == 61 {
            2
        } else {
            1
        }
    } else {
        0
    }
}

/// The bytes are base64: groups of four digits, at least one, of which the last
/// one may end in `=`.
pub open spec fn is_base64(s: Seq<u8>) -> bool {
    &&& s.len() > 0
    &&& s.len() % 4 == 0
    &&& forall|i: int| 0 <= i < s.len() - padding(s) ==> digit_value(#[trigger] s[i]) is Some
}

/// The number at a place; 0 for `=`.
pub open spec fn value_at(s: Seq<u8>, i: int) -> int {
    match digit_value(s[i]) {
        Some(v) => v,
        None => 0,
    }
}

/// The 24 bits of a group of four digits.
pub open spec fn group_at(s: Seq<u8>, g: int) -> int {
    value_at(s, 4 * g) * 262144 + value_at(s, 4 * g + 1) * 4096 + value_at(s, 4 * g + 2) * 64
        + value_at(s, 4 * g + 3)
}

/// A byte of the three that a group holds.
pub open spec fn byte_of(group: int, k: int) -> u8 {
    if k == 0 {
        (group / 65536) as u8
    } else if k == 1 {
        (group / 256 % 256) as u8
    } else {
        (group % 256) as u8
    }
}

/// The bytes that base64 text stands for: three for each group, less those that
/// are padding.
pub open spec fn decoded(s: Seq<u8>) -> Seq<u8> {
    Seq::new(
        (s.len() / 4 * 3 - padding(s)) as nat,
        |k: int| byte_of(group_at(s, k / 3), k % 3),
    )
}

/// What a text decodes to, where it is base64.
pub open spec fn decode_text(s: Seq<char>) -> Option<Seq<u8>> {
    if is_base64(encode_utf8(s)) {
        Some(decoded(encode_utf8(s)))
    } else {
        None
    }
}

/// The base64 digit for a number below 64.
pub open spec fn digit_for(v: int) -> char {
    if v < 26 {
        (v + 65) as u8 as char
    } else if v < 52 {
        (v + 71) as u8 as char
    } else if v < 62 {
        (v - 4) as u8 as char
    } else if v == 62 {
        '+'
    } else {
        '/'
    }
}

/// The byte at a place; 0 behind the last.
pub open spec fn byte_at(b: Seq<u8>, i: int) -> int {
    if 0 <= i < b.len() {
        b[i] as int
    } else {
        0
    }
}

/// The 24 bits of a group of three bytes.
pub open spec fn bits_of(b: Seq<u8>, g: int) -> int {
    byte_at(b, 3 * g) * 65536 + byte_at(b, 3 * g + 1) * 256 + byte_at(b, 3 * g + 2)
}

/// The number of one of the four digits of 24 bits.
pub open spec fn digit_in(bits: int, j: int) -> int {
    if j == 0 {
        bits / 262144 % 64
    } else if j == 1 {
        bits / 4096 % 64
    } else if j == 2 {
        bits / 64 % 64
    } else {
        bits % 64
    }
}

/// Bytes in base64: four digits for each three bytes, and `=` in the place of
/// those that hold no bit of them.
pub open spec fn base64_encoded(b: Seq<u8>) -> Seq<char> {
    Seq::new(
        ((b.len() + 2) / 3 * 4) as nat,
        |i: int|
            if i % 4 >= 2 && 3 * (i / 4) + i % 4 - 1 >= b.len() {
                '='
            } else {
                digit_for(digit_in(bits_of(b, i / 4), i % 4))
            },
    )
}

proof fn lemma_digit_for(v: int)
    requires
        0 <= v < 64,
    ensures
        (digit_for(v) as u32) < 128,
        digit_value(digit_for(v) as u8) == Some(v),
{
}

/// The four digits of 24 bits are those that they are made of.
proof fn lemma_digits(p: int, q: int, r: int, t: int)
    requires
        0 <= p < 64,
        0 <= q < 64,
        0 <= r < 64,
        0 <= t < 64,
    ensures
        ({
            let bits = p * 262144 + q * 4096 + r * 64 + t;
            &&& digit_in(bits, 0) == p
            &&& digit_in(bits, 1) == q
            &&& digit_in(bits, 2) == r
            &&& digit_in(bits, 3) == t
        }),
{
    let bits = p * 262144 + q * 4096 + r * 64 + t;
    assert(bits / 262144 == p);
    assert(bits / 4096 == p * 64 + q);
    assert(bits / 64 == (p * 64 + q) * 64 + r);
    assert(((p * 64 + q) * 64 + r) % 64 == r);
    assert((p * 64 + q) % 64 == q);
    assert(bits == (bits / 64) * 64 + t);
}

/// A group of three bytes gives its digits and is given back by them.
proof fn lemma_group(x: int, y: int, z: int)
    requires
        0 <= x < 256,
        0 <= y < 256,
        0 <= z < 256,
    ensures
        ({
            let bits = x * 65536 + y * 256 + z;
            &&& forall|j: int| 0 <= #[trigger] digit_in(bits, j) < 64
            &&& digit_in(bits, 0) * 262144 + digit_in(bits, 1) * 4096 + digit_in(bits, 2) * 64
                + digit_in(bits, 3) == bits
            &&& bits / 65536 == x
            &&& bits / 256 % 256 == y
            &&& bits % 256 == z
            &&& z == 0 ==> digit_in(bits, 3) == 0
            &&& y == 0 && z == 0 ==> digit_in(bits, 2) == 0
        }),
{
    let bits = x * 65536 + y * 256 + z;
    let p = x / 4;
    let q = x % 4 * 16 + y / 16;
    let r = y % 16 * 4 + z / 64;
    let t = z % 64;
    assert(bits == p * 262144 + q * 4096 + r * 64 + t);
    lemma_digits(p, q, r, t);
    assert(bits / 65536 == x);
    assert(bits / 256 == x * 256 + y);
    assert((x * 256 + y) % 256 == y);
}

/// Law: base64 gives back the bytes that it was made from.
pub proof fn law_base64_reads_back(b: Seq<u8>)
    requires
        b.len() > 0,
    ensures
        decode_text(base64_encoded(b)) == Some(b),
{
    let t = base64_encoded(b);
    let s = encode_utf8(t);
    let n = t.len() as int;
    assert forall|i: int| 0 <= i < n implies (#[trigger] t[i] as u32) < 128 by {
        let g = i / 4;
        lemma_group(byte_at(b, 3 * g), byte_at(b, 3 * g + 1), byte_at(b, 3 * g + 2));
        lemma_digit_for(digit_in(bits_of(b, g), i % 4));
    }
    assert(is_ascii_chars(t));
    is_ascii_chars_encode_utf8(t);
    assert forall|i: int| 0 <= i < n implies (if i % 4 >= 2 && 3 * (i / 4) + i % 4 - 1 >= b.len() {
        s[i] == 61
    } else {
        digit_value(#[trigger] s[i]) == Some(digit_in(bits_of(b, i / 4), i % 4))
    }) by {
        let g = i / 4;
        lemma_group(byte_at(b, 3 * g), byte_at(b, 3 * g + 1), byte_at(b, 3 * g + 2));
        lemma_digit_for(digit_in(bits_of(b, g), i % 4));
        assert(s[i] == t[i] as u8);
    }
    let pad = (n / 4 * 3 - b.len()) as int;
    assert(0 <= pad <= 2);
    assert(padding(s) == pad) by {
        assert(pad >= 1 ==> s[n - 1] == 61);
        assert(pad == 2 ==> s[n - 2] == 61);
        assert(pad == 0 ==> digit_value(s[n - 1]) is Some);
        assert(pad <= 1 ==> digit_value(s[n - 2]) is Some);
    }
    assert(is_base64(s)) by {
        assert forall|i: int| 0 <= i < n - pad implies digit_value(#[trigger] s[i]) is Some by {}
    }
    assert forall|k: int| 0 <= k < b.len() implies #[trigger] decoded(s)[k] == b[k] by {
        let g = k / 3;
        let x = byte_at(b, 3 * g);
        let y = byte_at(b, 3 * g + 1);
        let z = byte_at(b, 3 * g + 2);
        lemma_group(x, y, z);
        assert(value_at(s, 4 * g) == digit_in(bits_of(b, g), 0));
        assert(value_at(s, 4 * g + 1) == digit_in(bits_of(b, g), 1));
        assert(value_at(s, 4 * g + 2) == digit_in(bits_of(b, g), 2));
        assert(value_at(s, 4 * g + 3) == digit_in(bits_of(b, g), 3));
        assert(group_at(s, g) == bits_of(b, g));
    }
    assert(decoded(s) =~= b);
}

/// The number that a base64 digit stands for.
fn base64_digit(c: u8) -> (r: Option<u32>)
    ensures
        match r {
            Some(v) => v < 64 && digit_value(c) == Some(v as int),
            None => digit_value(c) is None,
        },
{
    if 65 <= c && c <= 90 {
        Some((c - 65) as u32)
    } else if 97 <= c && c <= 122 {
        Some((c - 71) as u32)
    } else if 48 <= c && c <= 57 {
        Some((c + 4) as u32)
    } else if c == 43 {
        Some(62)
    } else if c == 47 {
        Some(63)
    } else {
        None
    }
}

/// Decodes base64 with its padding and without white space; `None` for any
/// other text.
pub fn base64_decode(text: &str) -> (r: Option<Vec<u8>>)
    ensures
        match decode_text(text@) {
            Some(bytes) => r is Some && r->0@ == bytes,
            None => r is None,
        },
{
    let s = text.as_bytes();
    let n: usize = s.len();
    if n == 0 || n % 4 != 0 {
        return None;
    }
    let pad: usize = if s[n - 1] == 61 {
        if s[n - 2] == 61 {
            2
        } else {
            1
        }
    } else {
        0
    };
    let mut out: Vec<u8> = Vec::new();
    let mut g: usize = 0;
    let groups: usize = n / 4;
    while g < groups
        invariant
            s@ == encode_utf8(text@),
            n == s@.len(),
            n > 0,
            n % 4 == 0,
            groups == n / 4,
            pad == padding(s@),
            g <= groups,
            forall|i: int| 0 <= i < 4 * g && i < n - pad ==> digit_value(#[trigger] s@[i]) is Some,
            out@.len() == 3 * g,
            forall|k: int| 0 <= k < 3 * g ==> out@[k] == byte_of(group_at(s@, k / 3), k % 3),
        decreases groups - g,
    {
        let mut bits: u32 = 0;
        let mut j: usize = 0;
        while j < 4
            invariant
                s@ == encode_utf8(text@),
                n == s@.len(),
                n > 0,
                n % 4 == 0,
                groups == n / 4,
                pad == padding(s@),
                g < groups,
                j <= 4,
                forall|i: int|
                    0 <= i < 4 * g + j && i < n - pad ==> digit_value(#[trigger] s@[i]) is Some,
                bits == (if j == 0 {
                    0
                } else if j == 1 {
                    value_at(s@, 4 * g)
                } else if j == 2 {
                    value_at(s@, 4 * g) * 64 + value_at(s@, 4 * g + 1)
                } else if j == 3 {
                    value_at(s@, 4 * g) * 4096 + value_at(s@, 4 * g + 1) * 64 + value_at(
                        s@,
                        4 * g + 2,
                    )
                } else {
                    group_at(s@, g as int)
                }),
                j == 1 ==> bits < 64,
                j == 2 ==> bits < 4096,
                j == 3 ==> bits < 262144,
                j == 4 ==> bits < 16777216,
            decreases 4 - j,
        {
            let i: usize = 4 * g + j;
            let v: u32 = match base64_digit(s[i]) {
                Some(v) => v,
                None => {
                    if i < n - pad {
                        assert(digit_value(s@[i as int]) is None);
                        return None;
                    }
                    0
                },
            };
            assert(i >= n - pad ==> s@[i as int] == 61);
            assert(v == value_at(s@, i as int));
            bits = bits * 64 + v;
            j = j + 1;
        }
        let ghost before = out@;
        out.push((bits / 65536) as u8);
        out.push((bits / 256 % 256) as u8);
        out.push((bits % 256) as u8);
        assert forall|k: int| 0 <= k < 3 * (g + 1) implies out@[k] == byte_of(
            group_at(s@, k / 3),
            k % 3,
        ) by {
            if k < 3 * g {
                assert(out@[k] == before[k]);
            } else {
                assert(k / 3 == g);
            }
        }
        g = g + 1;
    }
    out.truncate(3 * groups - pad);
    assert(out@ =~= decoded(s@));
    Some(out)
}

// ---------------------------------------------------------------------------
// Raw ed25519
// ---------------------------------------------------------------------------

/// How long a minisign public key is: an algorithm, a number and the key.
pub const MINISIGN_PK_BYTES: usize = 42;

/// A minisign public key in its parts.
#[derive(Debug)]
pub struct ParsedPublicKey {
    /// The key's number in hexadecimal.
    pub key_id: String,
    /// The 32 bytes of the ed25519 key.
    pub ed25519_public_key: Vec<u8>,
}

/// The parts of a public key, or why it has none.
pub open spec fn key_parts(pubkey_b64: Seq<char>) -> Result<(Seq<char>, Seq<u8>), Seq<char>> {
    match decode_text(trimmed(pubkey_b64)) {
        None => Err("not valid base64"@),
        Some(bytes) => if bytes.len() != MINISIGN_PK_BYTES {
            Err("expected 42 bytes, got "@ + decimal(bytes.len()))
        } else if bytes[0] != 69 || bytes[1] != 100 {
            Err("missing ed25519 'Ed' algorithm tag"@)
        } else {
            Ok((hex(bytes.subrange(2, 10)), bytes.subrange(10, 42)))
        },
    }
}

/// The parts of a minisign public key.
pub fn parse_minisign_public_key(pubkey_b64: &str) -> (r: Result<ParsedPublicKey, SignatureError>)
    ensures
        match key_parts(pubkey_b64@) {
            Ok((key_id, key)) => r is Ok && r->Ok_0.key_id@ == key_id
                && r->Ok_0.ed25519_public_key@ == key,
            Err(e) => r matches Err(SignatureError::MalformedPublicKey(s)) && s@ == e,
        },
{
    let bytes = match base64_decode(&trim(pubkey_b64)) {
        Some(b) => b,
        None => {
            return Err(SignatureError::MalformedPublicKey(owned("not valid base64")));
        },
    };
    if bytes.len() != MINISIGN_PK_BYTES {
        let mut t = owned("expected 42 bytes, got ");
        add_text(&mut t, &decimal_text(bytes.len() as u64));
        return Err(SignatureError::MalformedPublicKey(t));
    }
    if bytes[0] != 69 || bytes[1] != 100 {
        return Err(
            SignatureError::MalformedPublicKey(owned("missing ed25519 'Ed' algorithm tag")),
        );
    }
    let all = bytes.as_slice();
    let key_id = hex_lower(slice_subrange(all, 2, 10));
    let mut key: Vec<u8> = Vec::new();
    let mut i: usize = 10;
    while i < 42
        invariant
            10 <= i <= 42,
            bytes@.len() == 42,
            key@ == bytes@.subrange(10, i as int),
        decreases 42 - i,
    {
        key.push(bytes[i]);
        i = i + 1;
    }
    Ok(ParsedPublicKey { key_id, ed25519_public_key: key })
}

/// Whether 32 bytes are an ed25519 public key, or why not.
pub uninterp spec fn ed25519_key(key: Seq<u8>) -> Result<(), Seq<char>>;

/// `ed25519_dalek::VerifyingKey::from_bytes`: whether the bytes are a key, and
/// the error's text, are functions of the bytes alone.
#[verifier::external_body]
fn check_ed25519_key(key: &Vec<u8>) -> (r: Result<(), String>)
    requires
        key@.len() == 32,
    ensures
        outcome(r) == ed25519_key(key@),
{
    let bytes: [u8; 32] = key.as_slice().try_into().unwrap();
    match ed25519_dalek::VerifyingKey::from_bytes(&bytes) {
        Ok(_) => Ok(()),
        Err(e) => Err(e.to_string()),
    }
}

/// Whether an ed25519 signature signs the bytes with the key, or why not.
pub uninterp spec fn ed25519_verdict(
    key: Seq<u8>,
    signature: Seq<u8>,
    bytes: Seq<u8>,
) -> Result<(), Seq<char>>;

/// `ed25519_dalek::VerifyingKey::verify` (the `Verifier` of that crate): the
/// outcome is a function of the key, the signature and the bytes alone. The key
/// is one, and the signature has 64 bytes.
#[verifier::external_body]
fn ed25519_verify(key: &Vec<u8>, signature: &Vec<u8>, bytes: &[u8]) -> (r: Result<(), String>)
    requires
        key@.len() == 32,
        ed25519_key(key@) is Ok,
        signature@.len() == 64,
    ensures
        outcome(r) == ed25519_verdict(key@, signature@, bytes@),
{
    let key: [u8; 32] = key.as_slice().try_into().unwrap();
    let signature: [u8; 64] = signature.as_slice().try_into().unwrap();
    let key = ed25519_dalek::VerifyingKey::from_bytes(&key).map_err(|e| e.to_string())?;
    let signature = ed25519_dalek::Signature::from_bytes(&signature);
    key.verify(bytes, &signature).map_err(|e| e.to_string())
}

/// The bytes of a raw signature, or why it has none.
pub open spec fn raw_signature(signature_b64: Seq<char>) -> Result<Seq<u8>, Seq<char>> {
    match decode_text(trimmed(signature_b64)) {
        None => Err("not valid base64"@),
        Some(bytes) => if bytes.len() != 64 {
            Err("expected 64 bytes, got "@ + decimal(bytes.len()))
        } else {
            Ok(bytes)
        },
    }
}

/// A check's outcome without its value.
pub open spec fn just_checked<T>(r: Result<T, Seq<char>>) -> Result<(), Seq<char>> {
    match r {
        Ok(_) => Ok(()),
        Err(e) => Err(e),
    }
}

/// The bytes of a raw signature.
fn decode_raw_signature(signature_b64: &str) -> (r: Result<Vec<u8>, String>)
    ensures
        match raw_signature(signature_b64@) {
            Ok(bytes) => r is Ok && r->Ok_0@ == bytes,
            Err(e) => r is Err && r->Err_0@ == e,
        },
{
    match base64_decode(&trim(signature_b64)) {
        None => Err(owned("not valid base64")),
        Some(bytes) => {
            if bytes.len() != 64 {
                let mut t = owned("expected 64 bytes, got ");
                add_text(&mut t, &decimal_text(bytes.len() as u64));
                Err(t)
            } else {
                Ok(bytes)
            }
        },
    }
}

/// Verifies a raw ed25519 signature over the bytes, under a key in the minisign
/// format.
pub fn raw_verify(pubkey_b64: &str, signature_b64: &str, bytes: &[u8]) -> (r: Result<
    (),
    SignatureError,
>)
    ensures
        match key_parts(pubkey_b64@) {
            Err(e) => r matches Err(SignatureError::MalformedPublicKey(s)) && s@ == e,
            Ok((_, key)) => judged(
                r,
                ed25519_key(key),
                just_checked(raw_signature(signature_b64@)),
                match raw_signature(signature_b64@) {
                    Ok(signature) => ed25519_verdict(key, signature, bytes@),
                    Err(e) => Ok(()),
                },
            ),
        },
{
    let parsed = match parse_minisign_public_key(pubkey_b64) {
        Ok(p) => p,
        Err(e) => {
            return Err(e);
        },
    };
    let key = check_ed25519_key(&parsed.ed25519_public_key);
    match decode_raw_signature(signature_b64) {
        Err(e) => judge_signature(key, Err(e), Ok(())),
        Ok(signature) => {
            if key.is_err() {
                return judge_signature(key, Ok(()), Ok(()));
            }
            let verification = ed25519_verify(&parsed.ed25519_public_key, &signature, bytes);
            judge_signature(key, Ok(()), verification)
        },
    }
}

/// Law: a signature is accepted only where the key decodes, the signature
/// decodes, and the signature signs exactly these bytes with this key.
pub proof fn law_accepted_only_when_verified(
    r: Result<(), SignatureError>,
    key: Result<(), Seq<char>>,
    signature: Result<(), Seq<char>>,
    verification: Result<(), Seq<char>>,
)
    requires
        judged(r, key, signature, verification),
    ensures
        r is Ok == (key is Ok && signature is Ok && verification is Ok),
        r matches Err(SignatureError::VerificationFailed(_)) ==> key is Ok && signature is Ok,
{
}

/// Law: a public key is the tag of its algorithm, the eight bytes of its identity
/// and the thirty-two of the key itself, one behind the other.
pub proof fn law_public_key_has_its_parts(
    pubkey_b64: Seq<char>,
    bytes: Seq<u8>,
    id: Seq<u8>,
    key: Seq<u8>,
)
    requires
        decode_text(trimmed(pubkey_b64)) == Some(bytes),
        bytes == seq![69u8, 100u8] + id + key,
        id.len() == 8,
        key.len() == 32,
    ensures
        key_parts(pubkey_b64) == Ok::<(Seq<char>, Seq<u8>), Seq<char>>((hex(id), key)),
{
    assert(bytes[0] == 69 && bytes[1] == 100);
    assert(bytes.subrange(2, 10) =~= id);
    assert(bytes.subrange(10, 42) =~= key);
}

/// Law: nothing but a key of the right length and algorithm is read as one, and
/// nothing but sixty-four bytes as a signature.
pub proof fn law_only_whole_keys_and_signatures_are_read(text: Seq<char>)
    ensures
        key_parts(text) is Ok <==> {
            &&& decode_text(trimmed(text)) matches Some(bytes)
            &&& bytes.len() == 42
            &&& bytes[0] == 69 && bytes[1] == 100
        },
        raw_signature(text) is Ok <==> {
            &&& decode_text(trimmed(text)) matches Some(bytes)
            &&& bytes.len() == 64
        },
        raw_signature(text) matches Ok(bytes) ==> decode_text(trimmed(text)) == Some(bytes),
{
}

/// One of the letters, digits and signs that base64 is written with.
pub open spec fn is_base64_sign(c: u8) -> bool {
    65 <= c <= 90 || 97 <= c <= 122 || 48 <= c <= 57 || c == 43 || c == 47
}

/// The text is made of groups of four signs, with `pads` times `=` at its end.
pub open spec fn is_padded_by(s: Seq<u8>, pads: int) -> bool {
    &&& 0 <= pads <= 2
    &&& s.len() > 0
    &&& s.len() % 4 == 0
    &&& forall|i: int| 0 <= i < s.len() - pads ==> is_base64_sign(#[trigger] s[i])
    &&& forall|i: int| s.len() - pads <= i < s.len() ==> #[trigger] s[i] == 61
}

/// Law: a text is decoded exactly where it is made of whole groups of four signs,
/// the last of which may end in one or two `=`; each group gives three bytes, less
/// one for each `=`. Neither blanks nor missing padding are passed over.
pub proof fn law_only_whole_groups_are_decoded(t: Seq<char>)
    ensures
        decode_text(t) is Some <==> exists|pads: int| #[trigger] is_padded_by(encode_utf8(t), pads),
        forall|pads: int| #[trigger]
            is_padded_by(encode_utf8(t), pads) ==> decode_text(t) is Some && 4 * (
            decode_text(t)->0.len() + pads) == 3 * encode_utf8(t).len(),
{
    let s = encode_utf8(t);
    let n = s.len() as int;
    if is_base64(s) {
        assert forall|i: int| 0 <= i < n - padding(s) implies is_base64_sign(#[trigger] s[i]) by {
            assert(digit_value(s[i]) is Some);
        }
        assert(is_padded_by(s, padding(s)));
    }
    assert forall|pads: int| #[trigger] is_padded_by(s, pads) implies is_base64(s) && padding(s)
        == pads by {
        assert(is_base64_sign(s[n - pads - 1]));
        if pads >= 1 {
            assert(s[n - 1] == 61);
        }
        if pads == 2 {
            assert(s[n - 2] == 61);
        }
        assert forall|i: int| 0 <= i < n - padding(s) implies digit_value(
            #[trigger] s[i],
        ) is Some by {
            assert(is_base64_sign(s[i]));
        }
    }
}

} // verus!
