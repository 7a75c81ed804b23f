//! What a build is pinned to, read from the texts that a build is given.

use crate::text::{
    chars_of, hex, law_hex_digits_stand_for_bytes, lemma_less_strict, lemma_less_total,
    lemma_less_trans, less, number, owned, parse_number, same_text, text_less, trim, trimmed, unhex,
};
use vstd::prelude::*;

verus! {

broadcast use vstd::string::group_string_axioms;

/// Why a build cannot be pinned.
#[derive(Debug, Clone, Copy, PartialEq, Eq, Structural)]
pub enum PinError {
    /// The version is no number.
    NotANumber,
    /// The version is that of the time before versions.
    Unversioned,
}

/// The version of the fabric manifest that a build is pinned to: a number from
/// 1 on, with space around it or none.
pub fn fabric_manifest_version(raw: &str) -> (r: Result<u32, PinError>)
    ensures
        match number(trimmed(raw@), u32::MAX as nat) {
            None => r == Err::<u32, PinError>(PinError::NotANumber),
            Some(n) => if n < 1 {
                r == Err::<u32, PinError>(PinError::Unversioned)
            } else {
                r == Ok::<u32, PinError>(n as u32)
            },
        },
{
    match parse_number(&trim(raw), u32::MAX as u64) {
        None => Err(PinError::NotANumber),
        Some(n) => {
            if n < 1 {
                Err(PinError::Unversioned)
            } else {
                Ok(n as u32)
            }
        },
    }
}

/// A digit of a lower-case hexadecimal number.
pub open spec fn is_hex(c: char) -> bool {
    '0' <= c <= '9' || 'a' <= c <= 'f'
}

/// The digest of a bundled provider: 64 lower-case hexadecimal digits.
pub open spec fn is_provider_digest(s: Seq<char>) -> bool {
    s.len() == 64 && forall|i: int| 0 <= i < s.len() ==> is_hex(#[trigger] s[i])
}

/// Whether a text is the digest of a bundled provider.
pub fn provider_digest(s: &str) -> (r: bool)
    ensures
        r == is_provider_digest(s@),
{
    let cs = chars_of(s);
    if cs.len() != 64 {
        return false;
    }
    let mut i: usize = 0;
    while i < cs.len()
        invariant
            i <= cs@.len(),
            cs@ == s@,
            forall|j: int| 0 <= j < i ==> is_hex(#[trigger] cs@[j]),
        decreases cs@.len() - i,
    {
        let c = cs[i];
        if !(('0' <= c && c <= '9') || ('a' <= c && c <= 'f')) {
            assert(!is_hex(s@[i as int]));
            return false;
        }
        i = i + 1;
    }
    true
}

/// A bundled provider with its digest.
#[derive(Debug, PartialEq, Eq)]
pub struct ProviderDigest {
    pub name: String,
    pub version: String,
    pub sha256: String,
}

/// A bundled provider with its digest, in the model.
#[verifier::ext_equal]
pub ghost struct ProviderView {
    pub name: Seq<char>,
    pub version: Seq<char>,
    pub sha256: Seq<char>,
}

impl View for ProviderDigest {
    type V = ProviderView;

    open spec fn view(&self) -> ProviderView {
        ProviderView { name: self.name@, version: self.version@, sha256: self.sha256@ }
    }
}

/// Why a list of bundled providers is none.
#[derive(Debug, PartialEq, Eq)]
pub enum ProviderError {
    /// What stands under the name is no object of versions.
    NotVersions { name: String },
    /// What stands under the version is no text.
    NotText { name: String, version: String },
    /// The text is no digest.
    NotDigest { name: String, version: String, sha256: String },
}

/// Why a list of bundled providers is none, in the model.
pub ghost enum ProviderFault {
    NotVersions(Seq<char>),
    NotText(Seq<char>, Seq<char>),
    NotDigest(Seq<char>, Seq<char>, Seq<char>),
}

impl View for ProviderError {
    type V = ProviderFault;

    open spec fn view(&self) -> ProviderFault {
        match *self {
            ProviderError::NotVersions { name } => ProviderFault::NotVersions(name@),
            ProviderError::NotText { name, version } => ProviderFault::NotText(name@, version@),
            ProviderError::NotDigest { name, version, sha256 } => ProviderFault::NotDigest(
                name@,
                version@,
                sha256@,
            ),
        }
    }
}

/// The versions of a provider one by one, or the first fault; a version with
/// `None` holds no text.
pub open spec fn flat_versions(name: Seq<char>, versions: Seq<(String, Option<String>)>) -> Result<
    Seq<ProviderView>,
    ProviderFault,
>
    decreases versions.len(),
{
    if versions.len() == 0 {
        Ok(Seq::empty())
    } else {
        match flat_versions(name, versions.drop_last()) {
            Err(e) => Err(e),
            Ok(before) => {
                let version = versions.last().0@;
                match versions.last().1 {
                    None => Err(ProviderFault::NotText(name, version)),
                    Some(sha) => if is_provider_digest(sha@) {
                        Ok(before.push(ProviderView { name, version, sha256: sha@ }))
                    } else {
                        Err(ProviderFault::NotDigest(name, version, sha@))
                    },
                }
            },
        }
    }
}

/// The versions of all providers one by one, or the first fault; a provider with
/// `None` holds no object of versions.
pub open spec fn flat_providers(
    all: Seq<(String, Option<Vec<(String, Option<String>)>>)>,
) -> Result<Seq<ProviderView>, ProviderFault>
    decreases all.len(),
{
    if all.len() == 0 {
        Ok(Seq::empty())
    } else {
        match flat_providers(all.drop_last()) {
            Err(e) => Err(e),
            Ok(before) => match all.last().1 {
                None => Err(ProviderFault::NotVersions(all.last().0@)),
                Some(versions) => match flat_versions(all.last().0@, versions@) {
                    Err(e) => Err(e),
                    Ok(more) => Ok(before + more),
                },
            },
        }
    }
}

/// A list of providers in the model.
pub open spec fn provider_views(v: Seq<ProviderDigest>) -> Seq<ProviderView> {
    v.map_values(|p: ProviderDigest| p@)
}

/// One provider stands before another: by name, then by version, then by digest.
pub open spec fn provider_less(a: ProviderView, b: ProviderView) -> bool {
    if a.name != b.name {
        less(a.name, b.name)
    } else if a.version != b.version {
        less(a.version, b.version)
    } else {
        less(a.sha256, b.sha256)
    }
}

/// No provider stands before one in front of it.
pub open spec fn is_sorted(v: Seq<ProviderView>) -> bool {
    forall|i: int, j: int|
        0 <= i < j < v.len() ==> !provider_less(#[trigger] v[j], #[trigger] v[i])
}

proof fn lemma_provider_order(a: ProviderView, b: ProviderView, c: ProviderView)
    ensures
        !provider_less(a, a),
        provider_less(a, b) ==> !provider_less(b, a),
        !provider_less(b, a) && !provider_less(c, b) ==> !provider_less(c, a),
{
    lemma_less_strict(a.name, b.name);
    lemma_less_strict(a.version, b.version);
    lemma_less_strict(a.sha256, b.sha256);
    lemma_less_total(a.name, b.name);
    lemma_less_total(a.version, b.version);
    lemma_less_total(a.sha256, b.sha256);
    if less(c.name, a.name) && less(a.name, b.name) {
        lemma_less_trans(c.name, a.name, b.name);
    }
    if less(c.version, a.version) && less(a.version, b.version) {
        lemma_less_trans(c.version, a.version, b.version);
    }
    if less(c.sha256, a.sha256) && less(a.sha256, b.sha256) {
        lemma_less_trans(c.sha256, a.sha256, b.sha256);
    }
    lemma_less_strict(b.name, c.name);
    lemma_less_strict(b.version, c.version);
    lemma_less_strict(b.sha256, c.sha256);
    lemma_less_total(b.name, c.name);
    lemma_less_total(b.version, c.version);
    lemma_less_total(b.sha256, c.sha256);
    lemma_less_strict(a.name, c.name);
    lemma_less_strict(a.version, c.version);
    lemma_less_strict(a.sha256, c.sha256);
}

fn is_provider_less(a: &ProviderDigest, b: &ProviderDigest) -> (r: bool)
    ensures
        r == provider_less(a@, b@),
{
    if !same_text(&a.name, &b.name) {
        text_less(&a.name, &b.name)
    } else if !same_text(&a.version, &b.version) {
        text_less(&a.version, &b.version)
    } else {
        text_less(&a.sha256, &b.sha256)
    }
}

/// Puts a provider into its place.
fn insert_sorted(v: &mut Vec<ProviderDigest>, p: ProviderDigest)
    requires
        is_sorted(provider_views(old(v)@)),
    ensures
        is_sorted(provider_views(final(v)@)),
        provider_views(final(v)@).to_multiset() == provider_views(
            old(v)@,
        ).to_multiset().insert(p@),
{
    let mut at: usize = v.len();
    let ghost views = provider_views(v@);
    while at > 0 && is_provider_less(&p, &v[at - 1])
        invariant
            at <= v@.len(),
            views == provider_views(v@),
            forall|j: int| at <= j < v@.len() ==> provider_less(p@, #[trigger] views[j]),
        decreases at,
    {
        assert(views[at - 1] == v@[at - 1]@);
        at = at - 1;
    }
    proof {
        assert(at > 0 ==> views[at - 1] == v@[at - 1]@);
        assert forall|j: int| 0 <= j < at implies !provider_less(p@, #[trigger] views[j]) by {
            if j < at - 1 {
                lemma_provider_order(views[j], views[at - 1], p@);
            }
        }
        assert forall|j: int| at <= j < views.len() implies !provider_less(
            #[trigger] views[j],
            p@,
        ) by {
            lemma_provider_order(p@, views[j], p@);
        }
    }
    let ghost new = p@;
    v.insert(at, p);
    proof {
        assert(provider_views(v@) =~= views.insert(at as int, new));
        vstd::seq_lib::to_multiset_insert(views, at as int, new);
    }
}

/// The bundled providers, in order, from an object of objects: names, versions
/// and digests. The first that is none of these is an error.
pub fn read_providers(all: &Vec<(String, Option<Vec<(String, Option<String>)>>)>) -> (r: Result<
    Vec<ProviderDigest>,
    ProviderError,
>)
    ensures
        match flat_providers(all@) {
            Ok(flat) => r matches Ok(v) && is_sorted(provider_views(v@)) && provider_views(
                v@,
            ).to_multiset() == flat.to_multiset(),
            Err(e) => r matches Err(f) && f@ == e,
        },
{
    let mut out: Vec<ProviderDigest> = Vec::new();
    let ghost mut flat: Seq<ProviderView> = Seq::empty();
    let mut i: usize = 0;
    assert(all@.subrange(0, 0) =~= Seq::<(String, Option<Vec<(String, Option<String>)>>)>::empty());
    assert(provider_views(out@) =~= Seq::<ProviderView>::empty());
    while i < all.len()
        invariant
            i <= all@.len(),
            flat_providers(all@.subrange(0, i as int)) == Ok::<
                Seq<ProviderView>,
                ProviderFault,
            >(flat),
            is_sorted(provider_views(out@)),
            provider_views(out@).to_multiset() == flat.to_multiset(),
        decreases all@.len() - i,
    {
        let ghost upto = all@.subrange(0, i + 1);
        assert(upto.drop_last() =~= all@.subrange(0, i as int));
        assert(upto.last() == all@[i as int]);
        let name = &all[i].0;
        match &all[i].1 {
            None => {
                proof {
                    lemma_fault_stays(all@, i + 1);
                }
                return Err(ProviderError::NotVersions { name: owned(name) });
            },
            Some(versions) => {
                let ghost before = flat;
                let mut j: usize = 0;
                let ghost mut more: Seq<ProviderView> = Seq::empty();
                assert(versions@.subrange(0, 0) =~= Seq::<(String, Option<String>)>::empty());
                assert(before + more =~= before);
                while j < versions.len()
                    invariant
                        j <= versions@.len(),
                        i < all@.len(),
                        all@[i as int].1 == Some(*versions),
                        all@[i as int].0@ == name@,
                        upto == all@.subrange(0, i + 1),
                        upto.drop_last() == all@.subrange(0, i as int),
                        upto.last() == all@[i as int],
                        flat_providers(all@.subrange(0, i as int)) == Ok::<
                            Seq<ProviderView>,
                            ProviderFault,
                        >(before),
                        flat_versions(name@, versions@.subrange(0, j as int)) == Ok::<
                            Seq<ProviderView>,
                            ProviderFault,
                        >(more),
                        is_sorted(provider_views(out@)),
                        provider_views(out@).to_multiset() == (before + more).to_multiset(),
                    decreases versions@.len() - j,
                {
                    let ghost some = versions@.subrange(0, j + 1);
                    assert(some.drop_last() =~= versions@.subrange(0, j as int));
                    assert(some.last() == versions@[j as int]);
                    let version = &versions[j].0;
                    match &versions[j].1 {
                        None => {
                            proof {
                                lemma_version_fault_stays(name@, versions@, j + 1);
                                lemma_fault_stays(all@, i + 1);
                            }
                            return Err(
                                ProviderError::NotText { name: owned(name), version: owned(version) },
                            );
                        },
                        Some(sha) => {
                            if !provider_digest(sha) {
                                proof {
                                    lemma_version_fault_stays(name@, versions@, j + 1);
                                    lemma_fault_stays(all@, i + 1);
                                }
                                return Err(
                                    ProviderError::NotDigest {
                                        name: owned(name),
                                        version: owned(version),
                                        sha256: owned(sha),
                                    },
                                );
                            }
                            let p = ProviderDigest {
                                name: owned(name),
                                version: owned(version),
                                sha256: owned(sha),
                            };
                            proof {
                                assert((before + more).push(p@) =~= before + more.push(p@));
                                vstd::seq_lib::to_multiset_build(before + more, p@);
                                more = more.push(p@);
                            }
                            insert_sorted(&mut out, p);
                        },
                    }
                    j = j + 1;
                }
                assert(versions@.subrange(0, versions@.len() as int) =~= versions@);
                proof {
                    flat = before + more;
                }
            },
        }
        i = i + 1;
    }
    assert(all@.subrange(0, all@.len() as int) =~= all@);
    Ok(out)
}

/// The first fault of a provider's versions stays it.
proof fn lemma_version_fault_stays(
    name: Seq<char>,
    versions: Seq<(String, Option<String>)>,
    n: int,
)
    requires
        0 <= n <= versions.len(),
        flat_versions(name, versions.subrange(0, n)) is Err,
    ensures
        flat_versions(name, versions) == flat_versions(name, versions.subrange(0, n)),
    decreases versions.len(),
{
    if n < versions.len() {
        assert(versions.drop_last().subrange(0, n) =~= versions.subrange(0, n));
        lemma_version_fault_stays(name, versions.drop_last(), n);
    } else {
        assert(versions.subrange(0, n) =~= versions);
    }
}

/// The first fault of a list stays it.
proof fn lemma_fault_stays(all: Seq<(String, Option<Vec<(String, Option<String>)>>)>, n: int)
    requires
        0 <= n <= all.len(),
        flat_providers(all.subrange(0, n)) is Err,
    ensures
        flat_providers(all) == flat_providers(all.subrange(0, n)),
    decreases all.len(),
{
    if n < all.len() {
        assert(all.drop_last().subrange(0, n) =~= all.subrange(0, n));
        lemma_fault_stays(all.drop_last(), n);
    } else {
        assert(all.subrange(0, n) =~= all);
    }
}

/// The entry holds this version of this provider with this digest.
pub open spec fn holds_provider(
    entry: (String, Option<Vec<(String, Option<String>)>>),
    p: ProviderView,
) -> bool {
    &&& entry.0@ == p.name
    &&& entry.1 matches Some(versions)
    &&& exists|i: int| 0 <= i < versions@.len() && holds_version(#[trigger] versions@[i], p)
}

/// The version is this one, with this digest.
pub open spec fn holds_version(v: (String, Option<String>), p: ProviderView) -> bool {
    v.0@ == p.version && (v.1 matches Some(sha) && sha@ == p.sha256)
}

proof fn lemma_flat_versions(
    name: Seq<char>,
    versions: Seq<(String, Option<String>)>,
    p: ProviderView,
)
    requires
        flat_versions(name, versions) is Ok,
    ensures
        flat_versions(name, versions)->Ok_0.contains(p) <==> p.name == name && exists|i: int|
            0 <= i < versions.len() && holds_version(#[trigger] versions[i], p),
        forall|i: int|
            0 <= i < versions.len() ==> ((#[trigger] versions[i]).1 matches Some(sha)
                && is_provider_digest(sha@)),
        flat_versions(name, versions)->Ok_0.len() == versions.len(),
    decreases versions.len(),
{
    if versions.len() > 0 {
        let rest = versions.drop_last();
        lemma_flat_versions(name, rest, p);
        let before = flat_versions(name, rest)->Ok_0;
        let all = flat_versions(name, versions)->Ok_0;
        let last = versions.last();
        assert(versions[versions.len() - 1] == last);
        let added = ProviderView { name, version: last.0@, sha256: last.1->0@ };
        assert(all == before.push(added));
        assert(all[all.len() - 1] == added);
        if before.contains(p) {
            let i = before.index_of(p);
            assert(all[i] == p);
        }
        if all.contains(p) {
            let i = all.index_of(p);
            if i < before.len() {
                assert(before[i] == p);
            } else {
                assert(holds_version(versions[versions.len() - 1], p));
            }
        }
        if exists|i: int| 0 <= i < rest.len() && holds_version(#[trigger] rest[i], p) {
            let i = choose|i: int| 0 <= i < rest.len() && holds_version(#[trigger] rest[i], p);
            assert(versions[i] == rest[i]);
        }
        if exists|i: int| 0 <= i < versions.len() && holds_version(#[trigger] versions[i], p) {
            let i = choose|i: int|
                0 <= i < versions.len() && holds_version(#[trigger] versions[i], p);
            if i < rest.len() {
                assert(rest[i] == versions[i]);
            } else if p.name == name {
                assert(added == p);
            }
        }
        assert forall|i: int| 0 <= i < versions.len() implies ((
        #[trigger] versions[i]).1 matches Some(sha) && is_provider_digest(sha@)) by {
            if i < rest.len() {
                assert(rest[i] == versions[i]);
            }
        }
    }
}

/// Law: the bundled providers are exactly the versions that are listed, each
/// under its provider's name and with its own digest.
pub proof fn law_bundled_providers_are_those_listed(
    all: Seq<(String, Option<Vec<(String, Option<String>)>>)>,
    p: ProviderView,
)
    requires
        flat_providers(all) is Ok,
    ensures
        flat_providers(all)->Ok_0.contains(p) <==> exists|k: int|
            0 <= k < all.len() && holds_provider(#[trigger] all[k], p),
        flat_providers(all)->Ok_0.contains(p) ==> is_provider_digest(p.sha256),
    decreases all.len(),
{
    if all.len() > 0 {
        let rest = all.drop_last();
        law_bundled_providers_are_those_listed(rest, p);
        let last = all.last();
        assert(all[all.len() - 1] == last);
        let versions = last.1->0@;
        lemma_flat_versions(last.0@, versions, p);
        let before = flat_providers(rest)->Ok_0;
        let more = flat_versions(last.0@, versions)->Ok_0;
        let out = flat_providers(all)->Ok_0;
        assert(out == before + more);
        if before.contains(p) {
            let i = before.index_of(p);
            assert(out[i] == p);
        }
        if more.contains(p) {
            let i = more.index_of(p);
            assert(out[before.len() + i] == p);
            let j = choose|j: int|
                0 <= j < versions.len() && holds_version(#[trigger] versions[j], p);
            assert(holds_provider(all[all.len() - 1], p));
        }
        if out.contains(p) {
            let i = out.index_of(p);
            if i < before.len() {
                assert(before[i] == p);
            } else {
                assert(more[i - before.len()] == p);
            }
        }
        if exists|k: int| 0 <= k < rest.len() && holds_provider(#[trigger] rest[k], p) {
            let k = choose|k: int| 0 <= k < rest.len() && holds_provider(#[trigger] rest[k], p);
            assert(all[k] == rest[k]);
        }
        if exists|k: int| 0 <= k < all.len() && holds_provider(#[trigger] all[k], p) {
            let k = choose|k: int| 0 <= k < all.len() && holds_provider(#[trigger] all[k], p);
            if k < rest.len() {
                assert(rest[k] == all[k]);
            }
        }
    }
}

/// Law: sorted providers stand in the order of their names, those of one name in
/// the order of their versions.
pub proof fn law_sorted_providers_stand_by_name(v: Seq<ProviderView>, i: int, j: int)
    requires
        is_sorted(v),
        0 <= i < j < v.len(),
    ensures
        v[i].name == v[j].name || less(v[i].name, v[j].name),
        v[i].name == v[j].name ==> v[i].version == v[j].version || less(
            v[i].version,
            v[j].version,
        ),
{
    assert(!provider_less(v[j], v[i]));
    lemma_less_total(v[i].name, v[j].name);
    lemma_less_total(v[i].version, v[j].version);
}

/// Law: the digest of a provider is the hexadecimal text of thirty-two bytes, and
/// nothing else is.
pub proof fn law_provider_digest_is_of_its_bytes(s: Seq<char>)
    ensures
        is_provider_digest(s) <==> exists|bytes: Seq<u8>|
            bytes.len() == 32 && #[trigger] hex(bytes) == s,
{
    if is_provider_digest(s) {
        assert forall|i: int| 0 <= i < s.len() implies '0' <= #[trigger] s[i] <= '9' || 'a' <= s[i]
            <= 'f' by {
            assert(is_hex(s[i]));
        }
        law_hex_digits_stand_for_bytes(s, Seq::empty());
        assert(hex(unhex(s)) == s);
    }
    if exists|bytes: Seq<u8>| bytes.len() == 32 && #[trigger] hex(bytes) == s {
        let bytes = choose|bytes: Seq<u8>| bytes.len() == 32 && #[trigger] hex(bytes) == s;
        law_hex_digits_stand_for_bytes(Seq::empty(), bytes);
        assert(hex(bytes).len() == 64);
    }
}

} // verus!
