//! Slugs: the folder that a registry's cartridges are installed under.
//!
//! A registry is known by its URL, byte for byte. Its folder is the start of
//! the URL's digest. Cartridges without a registry have a folder of their own,
//! whose name no digest can have.

use crate::digest::{digest_text, sha256, text_digest};
use crate::text::{chars_of, hex, law_hex_digits_stand_for_bytes, owned, text_between, unhex};
use vstd::prelude::*;
use vstd::utf8::encode_utf8;

verus! {

broadcast use vstd::string::group_string_axioms;

/// The folder of cartridges without a registry.
pub const DEV_SLUG: &'static str = "dev";

/// How long a registry's folder name is.
pub const SLUG_HEX_LEN: usize = 16;

/// The folder of a registry, or of cartridges without one.
pub open spec fn slug_of(registry_url: Option<Seq<char>>) -> Seq<char> {
    match registry_url {
        None => DEV_SLUG@,
        Some(url) => slug_of_digest_text(text_digest(url)),
    }
}

/// The folder of a registry, by the digest of its URL.
pub open spec fn slug_of_digest_text(digest: Seq<char>) -> Seq<char> {
    digest.subrange(0, SLUG_HEX_LEN as int)
}

/// An optional text borrowed from somewhere.
pub open spec fn opt_str(o: Option<&str>) -> Option<Seq<char>> {
    match o {
        Some(s) => Some(s@),
        None => None,
    }
}

/// The folder of a registry, by the digest of its URL in hexadecimal.
pub fn slug_from_digest(digest: &str) -> (r: String)
    requires
        digest@.len() >= SLUG_HEX_LEN,
    ensures
        r@ == slug_of_digest_text(digest@),
{
    let cs = chars_of(digest);
    text_between(&cs, 0, SLUG_HEX_LEN)
}

/// The folder of a registry, or of cartridges without one. The two are always
/// told apart: the folder of a registry is a slug, the other one is not.
pub fn slug_for(registry_url: Option<&str>) -> (r: String)
    ensures
        r@ == slug_of(opt_str(registry_url)),
        is_slug(r@) == (registry_url is Some),
        (r@ == DEV_SLUG@) == (registry_url is None),
{
    proof {
        reveal_strlit("dev");
    }
    match registry_url {
        None => owned(DEV_SLUG),
        Some(url) => {
            let digest = digest_text(url);
            let slug = slug_from_digest(&digest);
            proof {
                lemma_hex_chars(sha256(encode_utf8(url@)));
                assert forall|i: int| 0 <= i < slug@.len() implies is_hex_char(
                    #[trigger] slug@[i],
                ) by {
                    assert(slug@[i] == text_digest(url@)[i]);
                }
            }
            slug
        },
    }
}

/// A lowercase hexadecimal digit.
pub open spec fn is_hex_char(c: char) -> bool {
    ('0' <= c && c <= '9') || ('a' <= c && c <= 'f')
}

/// The name can be the folder of a registry.
pub open spec fn is_slug(s: Seq<char>) -> bool {
    s.len() == SLUG_HEX_LEN && forall|i: int| 0 <= i < s.len() ==> is_hex_char(#[trigger] s[i])
}

/// Whether a name can be the folder of a registry: it has the right length, and
/// lowercase hexadecimal digits only.
pub fn is_registry_slug(s: &str) -> (r: bool)
    ensures
        r == is_slug(s@),
{
    let cs = chars_of(s);
    if cs.len() != SLUG_HEX_LEN {
        return false;
    }
    let mut i: usize = 0;
    while i < cs.len()
        invariant
            i <= cs@.len(),
            cs@ == s@,
            forall|j: int| 0 <= j < i ==> is_hex_char(#[trigger] cs@[j]),
        decreases cs@.len() - i,
    {
        let c = cs[i];
        if !(('0' <= c && c <= '9') || ('a' <= c && c <= 'f')) {
            assert(!is_hex_char(cs@[i as int]));
            return false;
        }
        i = i + 1;
    }
    true
}

/// Every digit of a hexadecimal text is one.
proof fn lemma_hex_chars(bytes: Seq<u8>)
    ensures
        forall|i: int| 0 <= i < hex(bytes).len() ==> is_hex_char(#[trigger] hex(bytes)[i]),
{
    assert forall|i: int| 0 <= i < hex(bytes).len() implies is_hex_char(
        #[trigger] hex(bytes)[i],
    ) by {
        let b = bytes[i / 2];
        assert(0 <= b as int / 16 < 16);
        assert(0 <= b as int % 16 < 16);
    }
}

/// Law: the folder of a registry is the start of its URL's digest, of a fixed
/// length; cartridges without a registry have a folder that no registry has.
pub proof fn law_slug_is_the_start_of_the_digest(url: Seq<char>)
    requires
        text_digest(url).len() >= 16,
    ensures
        slug_of(Some(url)).len() == 16,
        slug_of(Some(url)).is_prefix_of(text_digest(url)),
        slug_of(None) == "dev"@,
        slug_of(Some(url)) != slug_of(None),
{
    reveal_strlit("dev");
    assert(slug_of(Some(url)).is_prefix_of(text_digest(url)));
}

/// Law: the folder of a registry is the hexadecimal text of eight bytes, and
/// nothing else is; the folder of cartridges without a registry is not.
pub proof fn law_registry_folder_is_of_eight_bytes(s: Seq<char>)
    ensures
        is_slug(s) <==> exists|bytes: Seq<u8>| bytes.len() == 8 && #[trigger] hex(bytes) == s,
        !is_slug(slug_of(None)),
{
    reveal_strlit("dev");
    if is_slug(s) {
        assert forall|i: int| 0 <= i < s.len() implies '0' <= #[trigger] s[i] <= '9' || 'a' <= s[i]
            <= 'f' by {
            assert(is_hex_char(s[i]));
        }
        law_hex_digits_stand_for_bytes(s, Seq::empty());
        assert(hex(unhex(s)) == s);
    }
    if exists|bytes: Seq<u8>| bytes.len() == 8 && #[trigger] hex(bytes) == s {
        let bytes = choose|bytes: Seq<u8>| bytes.len() == 8 && #[trigger] hex(bytes) == s;
        law_hex_digits_stand_for_bytes(Seq::empty(), bytes);
        assert(hex(bytes).len() == 16);
    }
}

} // verus!
