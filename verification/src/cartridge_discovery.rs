//! Which installed cartridges a host takes in.
//!
//! A host has an identity: a channel, a registry and a version of the fabric's
//! snapshot. Of each installed cartridge the newest version is looked at; what
//! differs from the host's identity is listed with the reason, and never run.
//! Reading folders and probing binaries is the caller's.

use crate::bifaci::cartridge_slug::{slug_for, slug_of};
use crate::fabric::registry::{show_option, shown_option};
use crate::text::{
    add_text, chars_of, clone_opt, decimal, decimal_text, occurs_at, opt_text, owned, same_opt,
    same_text, texts,
};
use crate::urn::{lower, lower_char, lowered};
use crate::version::{is_older, law_versions_are_ordered, version_less};
use vstd::prelude::*;

verus! {

broadcast use vstd::string::group_string_axioms;

/// The channels that cartridges are published in.
#[derive(Debug, Clone, Copy, PartialEq, Eq, Structural)]
pub enum CartridgeChannel {
    Release,
    Nightly,
}

impl CartridgeChannel {
    /// The channel's name.
    pub open spec fn name(self) -> Seq<char> {
        match self {
            CartridgeChannel::Release => "release"@,
            CartridgeChannel::Nightly => "nightly"@,
        }
    }

    /// The channel's name.
    pub fn as_str(self) -> (r: &'static str)
        ensures
            r@ == self.name(),
    {
        match self {
            CartridgeChannel::Release => "release",
            CartridgeChannel::Nightly => "nightly",
        }
    }
}

/// The identity that a host takes cartridges in for.
#[derive(Debug)]
pub struct DiscoveryIdentity {
    pub channel: CartridgeChannel,
    /// The registry; `None` for a development host.
    pub registry_url: Option<String>,
    pub fabric_manifest_version: u32,
}

impl DiscoveryIdentity {
    /// The folder that the host's cartridges are under.
    pub fn slug(&self) -> (r: String)
        ensures
            r@ == slug_of(opt_text(self.registry_url)),
    {
        match &self.registry_url {
            Some(url) => slug_for(Some(url.as_str())),
            None => slug_for(None),
        }
    }

    /// Whether this is a development host.
    pub fn dev_mode(&self) -> (r: bool)
        ensures
            r == (self.registry_url is None),
    {
        self.registry_url.is_none()
    }

    /// The folders from the root of the cartridges down to where the host
    /// looks.
    pub fn scan_path(&self) -> (r: Vec<String>)
        ensures
            texts(r@) == seq![slug_of(opt_text(self.registry_url)), self.channel.name()],
    {
        let mut out: Vec<String> = Vec::new();
        out.push(self.slug());
        out.push(owned(self.channel.as_str()));
        assert(texts(out@) =~= seq![slug_of(opt_text(self.registry_url)), self.channel.name()]);
        out
    }
}

/// What a cartridge says of itself.
#[derive(Debug)]
pub struct CartridgeJson {
    pub name: String,
    pub version: String,
    pub channel: CartridgeChannel,
    pub registry_url: Option<String>,
    /// The file that is run.
    pub entry: String,
    pub fabric_manifest_version: u32,
}

impl CartridgeJson {
    /// Checks that the cartridge lies under the folder of the registry that it
    /// names.
    pub fn check_slug(&self, folder: &str) -> (r: Result<(), String>)
        ensures
            match r {
                Ok(()) => slug_of(opt_text(self.registry_url)) == folder@,
                Err(e) => slug_of(opt_text(self.registry_url)) != folder@ && e@
                    == "registry_url belongs under '"@ + slug_of(opt_text(self.registry_url))
                    + "', not under '"@ + folder@ + "'"@,
            },
    {
        let slug = match &self.registry_url {
            Some(url) => slug_for(Some(url.as_str())),
            None => slug_for(None),
        };
        if same_text(&slug, folder) {
            return Ok(());
        }
        let mut t = owned("registry_url belongs under '");
        add_text(&mut t, &slug);
        add_text(&mut t, "', not under '");
        add_text(&mut t, folder);
        add_text(&mut t, "'");
        Err(t)
    }
}

/// Why a cartridge is not taken in.
#[derive(Debug, Clone, Copy, PartialEq, Eq, Structural)]
pub enum CartridgeAttachmentErrorKind {
    ManifestInvalid,
    BadInstallation,
    Incompatible,
    FabricManifestVersionMismatch,
    HandshakeFailed,
}

/// Why a cartridge is not taken in, and since when this is known.
#[derive(Debug)]
pub struct CartridgeAttachmentError {
    pub kind: CartridgeAttachmentErrorKind,
    pub message: String,
    pub detected_at_unix_seconds: i64,
}

/// An installed cartridge: taken in with what it offers, or not.
#[derive(Debug)]
pub enum DiscoveredCartridge<G> {
    Directory {
        entry_point: String,
        version_dir: String,
        id: String,
        channel: CartridgeChannel,
        registry_url: Option<String>,
        version: String,
        cap_groups: Vec<G>,
    },
    Incompatible {
        version_dir: String,
        id: String,
        channel: CartridgeChannel,
        registry_url: Option<String>,
        version: String,
        error: CartridgeAttachmentError,
    },
}

// ---------------------------------------------------------------------------
// The newest version
// ---------------------------------------------------------------------------

/// The version that is looked at: one that no other is newer than, and of
/// versions that are alike the first that was found.
pub fn newest_version(names: &Vec<String>) -> (r: Option<usize>)
    ensures
        match r {
            Some(i) => {
                &&& i < names@.len()
                &&& forall|j: int|
                    0 <= j < names@.len() ==> !version_less(
                        names@[i as int]@,
                        (#[trigger] names@[j])@,
                    )
                &&& forall|j: int|
                    0 <= j < i ==> version_less((#[trigger] names@[j])@, names@[i as int]@)
            },
            None => names@.len() == 0,
        },
{
    if names.len() == 0 {
        return None;
    }
    let mut best: usize = 0;
    let mut i: usize = 1;
    proof {
        law_versions_are_ordered(names@[0]@, names@[0]@, names@[0]@);
    }
    while i < names.len()
        invariant
            0 < i <= names@.len(),
            best < i,
            forall|j: int|
                0 <= j < i ==> !version_less(names@[best as int]@, (#[trigger] names@[j])@),
            forall|j: int|
                0 <= j < best ==> version_less((#[trigger] names@[j])@, names@[best as int]@),
        decreases names@.len() - i,
    {
        if is_older(&names[best], &names[i]) {
            proof {
                let new = names@[i as int]@;
                let was = names@[best as int]@;
                assert forall|j: int| 0 <= j < i implies version_less(
                    (#[trigger] names@[j])@,
                    new,
                ) by {
                    let n = names@[j]@;
                    law_versions_are_ordered(was, n, new);
                    law_versions_are_ordered(n, was, new);
                }
                assert forall|j: int| 0 <= j <= i implies !version_less(
                    new,
                    (#[trigger] names@[j])@,
                ) by {
                    law_versions_are_ordered(names@[j]@, new, new);
                    law_versions_are_ordered(new, new, new);
                }
            }
            best = i;
        }
        i = i + 1;
    }
    Some(best)
}

// ---------------------------------------------------------------------------
// Registry URLs
// ---------------------------------------------------------------------------

/// What is said of a registry's URL.
#[derive(Debug, PartialEq, Eq)]
pub enum RegistryUrlSchemeResult {
    Accepted,
    /// The scheme is not allowed.
    NonHttps { scheme: String },
    /// The text is no URL.
    NotAUrl(String),
}

/// What is said of a registry's URL, in the model.
pub ghost enum SchemeVerdict {
    Accepted,
    NonHttps(Seq<char>),
    NotAUrl(Seq<char>),
}

impl View for RegistryUrlSchemeResult {
    type V = SchemeVerdict;

    open spec fn view(&self) -> SchemeVerdict {
        match *self {
            RegistryUrlSchemeResult::Accepted => SchemeVerdict::Accepted,
            RegistryUrlSchemeResult::NonHttps { scheme } => SchemeVerdict::NonHttps(scheme@),
            RegistryUrlSchemeResult::NotAUrl(url) => SchemeVerdict::NotAUrl(url@),
        }
    }
}

/// Where the scheme of a URL ends: at the first `://` from `from` on that stands
/// behind something.
pub open spec fn scheme_end(url: Seq<char>, from: int) -> Option<int>
    decreases url.len() - from,
{
    if from >= url.len() {
        None
    } else if from > 0 && occurs_at(url, "://"@, from) {
        Some(from)
    } else {
        scheme_end(url, from + 1)
    }
}

/// What is said of a registry's URL: any scheme does in development, only
/// `https` elsewhere.
pub open spec fn scheme_verdict(url: Seq<char>, dev_mode: bool) -> SchemeVerdict {
    if dev_mode {
        SchemeVerdict::Accepted
    } else {
        match scheme_end(url, 0) {
            None => SchemeVerdict::NotAUrl(url),
            Some(at) => if lowered(url.subrange(0, at)) == "https"@ {
                SchemeVerdict::Accepted
            } else {
                SchemeVerdict::NonHttps(lowered(url.subrange(0, at)))
            },
        }
    }
}

/// Checks the scheme of a registry's URL.
pub fn validate_registry_url_scheme(url: &str, dev_mode: bool) -> (r: RegistryUrlSchemeResult)
    ensures
        r@ == scheme_verdict(url@, dev_mode),
{
    if dev_mode {
        return RegistryUrlSchemeResult::Accepted;
    }
    let cs = chars_of(url);
    let sep = chars_of("://");
    let mut scheme = String::new();
    let mut at: usize = 0;
    while at < cs.len()
        invariant
            !dev_mode,
            cs@ == url@,
            sep@ == "://"@,
            at <= cs@.len(),
            scheme@ == lowered(url@.subrange(0, at as int)),
            scheme_end(url@, 0) == scheme_end(url@, at as int),
        decreases cs@.len() - at,
    {
        if at > 0 && crate::text::chars_at(&cs, &sep, at) {
            if same_text(&scheme, "https") {
                return RegistryUrlSchemeResult::Accepted;
            }
            return RegistryUrlSchemeResult::NonHttps { scheme };
        }
        scheme.push(lower_char(cs[at]));
        assert(scheme@ =~= lowered(url@.subrange(0, at + 1)));
        at = at + 1;
    }
    RegistryUrlSchemeResult::NotAUrl(owned(url))
}

// ---------------------------------------------------------------------------
// Classification
// ---------------------------------------------------------------------------

/// Why a cartridge is not taken in, before it is probed: the first difference
/// from the host's identity.
pub open spec fn rejection(
    identity: DiscoveryIdentity,
    cj: CartridgeJson,
    scheme: SchemeVerdict,
) -> Option<(CartridgeAttachmentErrorKind, Seq<char>)> {
    if cj.channel != identity.channel {
        Some(
            (
                CartridgeAttachmentErrorKind::BadInstallation,
                "Channel mismatch: cartridge declares '"@ + cj.channel.name()
                    + "' but host is pinned to '"@ + identity.channel.name()
                    + "'. Release and nightly artefacts must not mix."@,
            ),
        )
    } else if opt_text(cj.registry_url) != opt_text(identity.registry_url) {
        Some(
            (
                CartridgeAttachmentErrorKind::BadInstallation,
                "registry_url mismatch: cartridge declares "@ + shown_option(
                    opt_text(cj.registry_url),
                ) + " but host is pinned to "@ + shown_option(opt_text(identity.registry_url))
                    + ". Cartridges from a different registry are a separate identity."@,
            ),
        )
    } else if cj.registry_url is Some && scheme is NonHttps {
        Some(
            (
                CartridgeAttachmentErrorKind::Incompatible,
                "registry_url uses '"@ + scheme->NonHttps_0
                    + "' scheme, must be https in non-dev builds. Rebuild the cartridge with an https registry URL."@,
            ),
        )
    } else if cj.registry_url is Some && scheme is NotAUrl {
        Some(
            (
                CartridgeAttachmentErrorKind::Incompatible,
                "registry_url '"@ + scheme->NotAUrl_0 + "' is not a well-formed URL."@,
            ),
        )
    } else if cj.fabric_manifest_version != identity.fabric_manifest_version {
        Some(
            (
                CartridgeAttachmentErrorKind::FabricManifestVersionMismatch,
                "Cartridge built against fabric manifest version "@ + decimal(
                    cj.fabric_manifest_version as nat,
                ) + ", but host is pinned to "@ + decimal(identity.fabric_manifest_version as nat)
                    + ". Rebuild the cartridge with MFR_FABRIC_MANIFEST_VERSION="@ + decimal(
                    identity.fabric_manifest_version as nat,
                ) + "."@,
            ),
        )
    } else {
        None
    }
}

/// Why a cartridge is not taken in, before it is probed.
fn find_rejection(
    identity: &DiscoveryIdentity,
    cj: &CartridgeJson,
    scheme: &RegistryUrlSchemeResult,
) -> (r: Option<(CartridgeAttachmentErrorKind, String)>)
    ensures
        match rejection(*identity, *cj, scheme@) {
            Some((kind, text)) => r is Some && (r->0).0 == kind && (r->0).1@ == text,
            None => r is None,
        },
{
    if cj.channel != identity.channel {
        let mut t = owned("Channel mismatch: cartridge declares '");
        add_text(&mut t, cj.channel.as_str());
        add_text(&mut t, "' but host is pinned to '");
        add_text(&mut t, identity.channel.as_str());
        add_text(&mut t, "'. Release and nightly artefacts must not mix.");
        return Some((CartridgeAttachmentErrorKind::BadInstallation, t));
    }
    if !same_opt(&cj.registry_url, &identity.registry_url) {
        let mut t = owned("registry_url mismatch: cartridge declares ");
        add_text(&mut t, &show_option(&cj.registry_url));
        add_text(&mut t, " but host is pinned to ");
        add_text(&mut t, &show_option(&identity.registry_url));
        add_text(&mut t, ". Cartridges from a different registry are a separate identity.");
        return Some((CartridgeAttachmentErrorKind::BadInstallation, t));
    }
    if cj.registry_url.is_some() {
        match scheme {
            RegistryUrlSchemeResult::Accepted => {},
            RegistryUrlSchemeResult::NonHttps { scheme: s } => {
                let mut t = owned("registry_url uses '");
                add_text(&mut t, s);
                add_text(
                    &mut t,
                    "' scheme, must be https in non-dev builds. Rebuild the cartridge with an https registry URL.",
                );
                return Some((CartridgeAttachmentErrorKind::Incompatible, t));
            },
            RegistryUrlSchemeResult::NotAUrl(bad) => {
                let mut t = owned("registry_url '");
                add_text(&mut t, bad);
                add_text(&mut t, "' is not a well-formed URL.");
                return Some((CartridgeAttachmentErrorKind::Incompatible, t));
            },
        }
    }
    if cj.fabric_manifest_version != identity.fabric_manifest_version {
        let host = decimal_text(identity.fabric_manifest_version as u64);
        let mut t = owned("Cartridge built against fabric manifest version ");
        add_text(&mut t, &decimal_text(cj.fabric_manifest_version as u64));
        add_text(&mut t, ", but host is pinned to ");
        add_text(&mut t, &host);
        add_text(&mut t, ". Rebuild the cartridge with MFR_FABRIC_MANIFEST_VERSION=");
        add_text(&mut t, &host);
        add_text(&mut t, ".");
        return Some((CartridgeAttachmentErrorKind::FabricManifestVersionMismatch, t));
    }
    None
}

/// What is to be done with an installed cartridge.
#[derive(Debug)]
pub enum Examined<G> {
    /// It agrees with the host: its entry point is to be probed.
    Probe(CartridgeJson),
    /// It is not taken in.
    Rejected(DiscoveredCartridge<G>),
}

/// `d` lists a cartridge that is not taken in, with these parts.
pub open spec fn lists_rejected<G>(
    d: DiscoveredCartridge<G>,
    version_dir: Seq<char>,
    id: Seq<char>,
    channel: CartridgeChannel,
    registry_url: Option<Seq<char>>,
    version: Seq<char>,
    kind: CartridgeAttachmentErrorKind,
    message: Seq<char>,
    detected_at: i64,
) -> bool {
    match d {
        DiscoveredCartridge::Incompatible {
            version_dir: dir,
            id: i,
            channel: c,
            registry_url: u,
            version: v,
            error,
        } => {
            &&& dir@ == version_dir
            &&& i@ == id
            &&& c == channel
            &&& opt_text(u) == registry_url
            &&& v@ == version
            &&& error.kind == kind
            &&& error.message@ == message
            &&& error.detected_at_unix_seconds == detected_at
        },
        DiscoveredCartridge::Directory { .. } => false,
    }
}

/// Examines the newest version of an installed cartridge. `loaded` is what its
/// `cartridge.json` says, or why it cannot be read; the folders' names stand in
/// for what cannot be read.
pub fn examine<G>(
    identity: &DiscoveryIdentity,
    version_dir: &str,
    folder_name: &str,
    folder_version: &str,
    loaded: Result<CartridgeJson, String>,
    detected_at: i64,
) -> (r: Examined<G>)
    ensures
        match loaded {
            Err(e) => r matches Examined::Rejected(d) && lists_rejected(
                d,
                version_dir@,
                folder_name@,
                identity.channel,
                opt_text(identity.registry_url),
                folder_version@,
                CartridgeAttachmentErrorKind::ManifestInvalid,
                "cartridge.json failed to load: "@ + e@,
                detected_at,
            ),
            Ok(cj) => examined(
                *identity,
                version_dir@,
                cj,
                cartridge_scheme(*identity, cj),
                detected_at,
                r,
            ),
        },
{
    let cj = match loaded {
        Ok(cj) => cj,
        Err(e) => {
            let mut t = owned("cartridge.json failed to load: ");
            add_text(&mut t, &e);
            return Examined::Rejected(
                DiscoveredCartridge::Incompatible {
                    version_dir: owned(version_dir),
                    id: owned(folder_name),
                    channel: identity.channel,
                    registry_url: clone_opt(&identity.registry_url),
                    version: owned(folder_version),
                    error: CartridgeAttachmentError {
                        kind: CartridgeAttachmentErrorKind::ManifestInvalid,
                        message: t,
                        detected_at_unix_seconds: detected_at,
                    },
                },
            );
        },
    };
    let scheme = match &cj.registry_url {
        Some(url) => validate_registry_url_scheme(url, identity.dev_mode()),
        None => RegistryUrlSchemeResult::Accepted,
    };
    examine_against(identity, version_dir, cj, scheme, detected_at)
}

/// What is said of the registry URL of a cartridge.
pub open spec fn cartridge_scheme(identity: DiscoveryIdentity, cj: CartridgeJson) -> SchemeVerdict {
    match cj.registry_url {
        Some(url) => scheme_verdict(url@, identity.registry_url is None),
        None => SchemeVerdict::Accepted,
    }
}

/// What comes of a cartridge whose registry URL's scheme was judged so.
pub open spec fn examined<G>(
    identity: DiscoveryIdentity,
    version_dir: Seq<char>,
    cj: CartridgeJson,
    scheme: SchemeVerdict,
    detected_at: i64,
    r: Examined<G>,
) -> bool {
    match rejection(identity, cj, scheme) {
        None => r == Examined::<G>::Probe(cj),
        Some((kind, message)) => r matches Examined::Rejected(d) && lists_rejected(
            d,
            version_dir,
            cj.name@,
            cj.channel,
            opt_text(cj.registry_url),
            cj.version@,
            kind,
            message,
            detected_at,
        ),
    }
}

/// Examines a cartridge whose registry URL's scheme was judged so.
pub fn examine_against<G>(
    identity: &DiscoveryIdentity,
    version_dir: &str,
    cj: CartridgeJson,
    scheme: RegistryUrlSchemeResult,
    detected_at: i64,
) -> (r: Examined<G>)
    ensures
        examined(*identity, version_dir@, cj, scheme@, detected_at, r),
{
    match find_rejection(identity, &cj, &scheme) {
        None => Examined::Probe(cj),
        Some((kind, message)) => Examined::Rejected(
            DiscoveredCartridge::Incompatible {
                version_dir: owned(version_dir),
                id: cj.name,
                channel: cj.channel,
                registry_url: cj.registry_url,
                version: cj.version,
                error: CartridgeAttachmentError {
                    kind,
                    message,
                    detected_at_unix_seconds: detected_at,
                },
            },
        ),
    }
}

/// What comes of a cartridge that was probed: what it offers, or why the probe
/// failed.
pub fn conclude<G>(
    version_dir: &str,
    entry_point: &str,
    cj: CartridgeJson,
    probe: Result<Vec<G>, String>,
    detected_at: i64,
) -> (r: DiscoveredCartridge<G>)
    ensures
        match probe {
            Ok(groups) => match r {
                DiscoveredCartridge::Directory {
                    entry_point: e,
                    version_dir: dir,
                    id,
                    channel,
                    registry_url,
                    version,
                    cap_groups,
                } => {
                    &&& e@ == entry_point@
                    &&& dir@ == version_dir@
                    &&& id == cj.name
                    &&& channel == cj.channel
                    &&& registry_url == cj.registry_url
                    &&& version == cj.version
                    &&& cap_groups == groups
                },
                DiscoveredCartridge::Incompatible { .. } => false,
            },
            Err(e) => lists_rejected(
                r,
                version_dir@,
                cj.name@,
                cj.channel,
                opt_text(cj.registry_url),
                cj.version@,
                CartridgeAttachmentErrorKind::HandshakeFailed,
                "HELLO handshake / cap discovery probe failed: "@ + e@,
                detected_at,
            ),
        },
{
    match probe {
        Ok(cap_groups) => DiscoveredCartridge::Directory {
            entry_point: owned(entry_point),
            version_dir: owned(version_dir),
            id: cj.name,
            channel: cj.channel,
            registry_url: cj.registry_url,
            version: cj.version,
            cap_groups,
        },
        Err(e) => {
            let mut t = owned("HELLO handshake / cap discovery probe failed: ");
            add_text(&mut t, &e);
            DiscoveredCartridge::Incompatible {
                version_dir: owned(version_dir),
                id: cj.name,
                channel: cj.channel,
                registry_url: cj.registry_url,
                version: cj.version,
                error: CartridgeAttachmentError {
                    kind: CartridgeAttachmentErrorKind::HandshakeFailed,
                    message: t,
                    detected_at_unix_seconds: detected_at,
                },
            }
        },
    }
}

/// Law: a cartridge is probed only where it agrees with the host on the
/// channel, the registry and the snapshot; nothing else is ever run.
pub proof fn law_only_agreeing_cartridges_are_probed<G>(
    identity: DiscoveryIdentity,
    version_dir: Seq<char>,
    cj: CartridgeJson,
    scheme: SchemeVerdict,
    detected_at: i64,
    r: Examined<G>,
)
    requires
        examined(identity, version_dir, cj, scheme, detected_at, r),
    ensures
        (r is Probe) == (cj.channel == identity.channel && opt_text(cj.registry_url) == opt_text(
            identity.registry_url,
        ) && (cj.registry_url is None || scheme is Accepted) && cj.fabric_manifest_version
            == identity.fabric_manifest_version),
{
}

proof fn lemma_scheme_end(url: Seq<char>, from: int)
    requires
        0 <= from,
    ensures
        match scheme_end(url, from) {
            Some(at) => {
                &&& from <= at < url.len()
                &&& at > 0
                &&& occurs_at(url, "://"@, at)
                &&& forall|k: int| from <= k < at && k > 0 ==> !#[trigger] occurs_at(url, "://"@, k)
            },
            None => forall|k: int|
                from <= k < url.len() && k > 0 ==> !#[trigger] occurs_at(url, "://"@, k),
        },
    decreases url.len() - from,
{
    if from < url.len() && !(from > 0 && occurs_at(url, "://"@, from)) {
        lemma_scheme_end(url, from + 1);
    }
}

/// Law: outside development exactly the URLs that start with `https://`, in
/// whatever case, are accepted; in development any text is.
pub proof fn law_only_https_is_accepted(url: Seq<char>)
    ensures
        scheme_verdict(url, true) is Accepted,
        scheme_verdict(url, false) is Accepted <==> url.len() >= 8 && lowered(url.subrange(0, 8))
            == "https://"@,
{
    reveal_strlit("https");
    reveal_strlit("https://");
    reveal_strlit("://");
    lemma_scheme_end(url, 0);
    if scheme_verdict(url, false) is Accepted {
        let at = scheme_end(url, 0)->0;
        let low = lowered(url.subrange(0, at));
        assert(low.len() == at);
        assert(low.len() == "https"@.len());
        assert(url.subrange(at, at + 3) == "://"@);
        let head = url.subrange(0, 8);
        assert forall|k: int| 0 <= k < 8 implies lowered(head)[k] == "https://"@[k] by {
            if k < 5 {
                assert(low[k] == lower(url[k]));
                assert(low[k] == "https"@[k]);
            } else {
                assert(url.subrange(at, at + 3)[k - 5] == url[k]);
            }
        }
        assert(lowered(head) =~= "https://"@);
    }
    if url.len() >= 8 && lowered(url.subrange(0, 8)) == "https://"@ {
        let head = url.subrange(0, 8);
        assert forall|k: int| 0 <= k < 8 implies lower(url[k]) == "https://"@[k] by {
            assert(lowered(head)[k] == lower(head[k]));
        }
        assert(lower(url[5]) == "https://"@[5]);
        assert(lower(url[6]) == "https://"@[6]);
        assert(lower(url[7]) == "https://"@[7]);
        assert(url[5] == ':' && url[6] == '/' && url[7] == '/');
        assert(url.subrange(5, 8) =~= "://"@);
        assert(occurs_at(url, "://"@, 5));
        assert forall|k: int| 0 < k < 5 implies !#[trigger] occurs_at(url, "://"@, k) by {
            if occurs_at(url, "://"@, k) {
                assert(url.subrange(k, k + 3)[0] == url[k]);
                assert("://"@[0] == ':');
                assert(lower(url[k]) == "https://"@[k]);
            }
        }
        assert(scheme_end(url, 0) == Some(5int));
        assert(lowered(url.subrange(0, 5)) =~= "https"@) by {
            assert forall|k: int| 0 <= k < 5 implies lowered(url.subrange(0, 5))[k]
                == "https"@[k] by {
                assert(lower(url[k]) == "https://"@[k]);
            }
        }
    }
}

/// Law: what is wrong with a cartridge is told by kind: one of another channel or
/// registry is badly installed, one whose registry is not reached over `https`
/// does not fit, and one of another snapshot is of the wrong version.
pub proof fn law_rejection_tells_what_is_wrong(
    identity: DiscoveryIdentity,
    cj: CartridgeJson,
    scheme: SchemeVerdict,
)
    ensures
        ({
            let r = rejection(identity, cj, scheme);
            let same_channel = cj.channel == identity.channel;
            let same_registry = opt_text(cj.registry_url) == opt_text(identity.registry_url);
            let reached = cj.registry_url is None || scheme is Accepted;
            let same_snapshot = cj.fabric_manifest_version == identity.fabric_manifest_version;
            &&& r is None <==> same_channel && same_registry && reached && same_snapshot
            &&& (!same_channel || !same_registry) ==> (r->0).0
                == CartridgeAttachmentErrorKind::BadInstallation
            &&& same_channel && same_registry && !reached ==> (r->0).0
                == CartridgeAttachmentErrorKind::Incompatible
            &&& same_channel && same_registry && reached && !same_snapshot ==> (r->0).0
                == CartridgeAttachmentErrorKind::FabricManifestVersionMismatch
        }),
{
}

} // verus!
