//! The registry of cap and media definitions: its configuration, the snapshot
//! that it is pinned to, its caches, and the decisions of every fetch.
//!
//! Definitions are fetched one by one, under the digest of their canonical URN.
//! A cap is taken into the cache only when every media definition that it
//! refers to is there, so that a cached cap never lacks one. Requests, files
//! and the clock are the caller's: the registry says what to ask for, and is
//! told what came back.

use crate::digest::{digest_text, text_digest};
use crate::fabric::alias::StoredAlias;
use crate::media::spec::{copy_validation, same_validation, MediaDef, MediaValidation};
use crate::text::{
    add_text, clone_opt, clone_texts, decimal, decimal_text, has_text, less, lowercase, opt_text,
    owned, same_opt, same_text, text_less, texts, to_lowercase,
};
use crate::text_map::{key_at, keys_unique, lemma_entry, lemma_key, map_of, TextMap};
use crate::urn::{
    cap_parse, cap_text, direction, media_parse, media_text, CapUrn, MediaUrn, TagView,
};
use vstd::prelude::*;

verus! {

broadcast use vstd::string::group_string_axioms;

// ---------------------------------------------------------------------------
// Configuration
// ---------------------------------------------------------------------------

/// The registry that is used where none is configured.
pub const DEFAULT_REGISTRY_BASE_URL: &'static str = "https://fabric.capdag.com";

/// How many hours an entry of the unversioned snapshot is kept.
pub const CACHE_DURATION_HOURS: u64 = 24;

/// Where the registry and its schemas are.
#[derive(Debug)]
pub struct RegistryConfig {
    pub registry_base_url: String,
    pub schema_base_url: String,
}

impl RegistryConfig {
    /// The configuration from the values of `CDG_FABRIC_REGISTRY_URL` and
    /// `CDG_SCHEMA_BASE_URL`: the default registry, and the schemas below the
    /// registry, where they are not set.
    pub fn new(registry_url: Option<String>, schema_url: Option<String>) -> (r: Self)
        ensures
            r.registry_base_url@ == (match registry_url {
                Some(u) => u@,
                None => DEFAULT_REGISTRY_BASE_URL@,
            }),
            r.schema_base_url@ == (match schema_url {
                Some(u) => u@,
                None => r.registry_base_url@ + "/schema"@,
            }),
    {
        let registry_base_url = match registry_url {
            Some(u) => u,
            None => owned(DEFAULT_REGISTRY_BASE_URL),
        };
        let schema_base_url = match schema_url {
            Some(u) => u,
            None => {
                let mut s = registry_base_url.clone();
                add_text(&mut s, "/schema");
                s
            },
        };
        RegistryConfig { registry_base_url, schema_base_url }
    }

    /// The same with another registry; schemas that lie below the registry move
    /// with it.
    pub fn with_registry_url(self, url: &str) -> (r: Self)
        ensures
            r.registry_base_url@ == url@,
            r.schema_base_url@ == (if self.schema_base_url@ == self.registry_base_url@
                + "/schema"@ {
                url@ + "/schema"@
            } else {
                self.schema_base_url@
            }),
    {
        let mut below = self.registry_base_url.clone();
        add_text(&mut below, "/schema");
        let schema_base_url = if same_text(&self.schema_base_url, &below) {
            let mut s = owned(url);
            add_text(&mut s, "/schema");
            s
        } else {
            self.schema_base_url
        };
        RegistryConfig { registry_base_url: owned(url), schema_base_url }
    }

    /// The same with other schemas.
    pub fn with_schema_url(self, url: &str) -> (r: Self)
        ensures
            r.registry_base_url == self.registry_base_url,
            r.schema_base_url@ == url@,
    {
        RegistryConfig { registry_base_url: self.registry_base_url, schema_base_url: owned(url) }
    }
}

// ---------------------------------------------------------------------------
// Errors
// ---------------------------------------------------------------------------

/// What can go wrong with the registry.
#[derive(Debug, PartialEq, Eq)]
pub enum FabricRegistryError {
    HttpError(String),
    NotFound(String),
    ParseError(String),
    CacheError(String),
    ValidationError(String),
    NetworkBlocked(String),
    ExtensionNotFound(String),
}

impl FabricRegistryError {
    /// The error as a message.
    pub open spec fn message(self) -> Seq<char> {
        match self {
            FabricRegistryError::HttpError(s) => "HTTP error: "@ + s@,
            FabricRegistryError::NotFound(s) => "Not found in registry: "@ + s@,
            FabricRegistryError::ParseError(s) => "Failed to parse registry response: "@ + s@,
            FabricRegistryError::CacheError(s) => "Cache error: "@ + s@,
            FabricRegistryError::ValidationError(s) => "Validation error: "@ + s@,
            FabricRegistryError::NetworkBlocked(s) => "Network access blocked: "@ + s@,
            FabricRegistryError::ExtensionNotFound(s) => "No media def registered for extension: "@
                + s@,
        }
    }

    /// The error as a message.
    pub fn to_string(&self) -> (r: String)
        ensures
            r@ == self.message(),
    {
        let (head, tail) = match self {
            FabricRegistryError::HttpError(s) => ("HTTP error: ", s),
            FabricRegistryError::NotFound(s) => ("Not found in registry: ", s),
            FabricRegistryError::ParseError(s) => ("Failed to parse registry response: ", s),
            FabricRegistryError::CacheError(s) => ("Cache error: ", s),
            FabricRegistryError::ValidationError(s) => ("Validation error: ", s),
            FabricRegistryError::NetworkBlocked(s) => ("Network access blocked: ", s),
            FabricRegistryError::ExtensionNotFound(s) => (
                "No media def registered for extension: ",
                s,
            ),
        };
        let mut out = owned(head);
        add_text(&mut out, tail);
        out
    }
}

// ---------------------------------------------------------------------------
// Definitions
// ---------------------------------------------------------------------------

/// Where the value of a cap's argument comes from.
#[derive(Debug, PartialEq, Eq)]
pub enum ArgSource {
    /// The standard input, with its media URN.
    Stdin { stdin: String },
    /// Anything else (a flag, a position).
    Other,
}

/// An argument of a cap.
#[derive(Debug, PartialEq, Eq)]
pub struct CapArg {
    pub media_urn: String,
    pub sources: Vec<ArgSource>,
}

/// A cap definition, as far as it is looked at here.
#[derive(Debug, PartialEq, Eq)]
pub struct Cap {
    pub urn: CapUrn,
    /// The version of the definition; 0 for the unversioned snapshot.
    pub version: u32,
    pub title: String,
    /// The names that the cap declares for itself.
    pub aliases: Vec<String>,
    pub command: String,
    pub args: Vec<CapArg>,
    /// The media URN of the output.
    pub output: Option<String>,
    pub input_is_sequence: bool,
    pub output_is_sequence: bool,
}

/// The media URN of the first argument source that is the standard input.
pub open spec fn stdin_of(args: Seq<CapArg>) -> Option<Seq<char>>
    decreases args.len(),
{
    if args.len() == 0 {
        None
    } else {
        match stdin_in(args[0].sources@) {
            Some(s) => Some(s),
            None => stdin_of(args.drop_first()),
        }
    }
}

/// The media URN of the first source that is the standard input.
pub open spec fn stdin_in(sources: Seq<ArgSource>) -> Option<Seq<char>>
    decreases sources.len(),
{
    if sources.len() == 0 {
        None
    } else {
        match sources[0] {
            ArgSource::Stdin { stdin } => Some(stdin@),
            ArgSource::Other => stdin_in(sources.drop_first()),
        }
    }
}

/// The first source that is the standard input.
fn find_stdin(sources: &Vec<ArgSource>) -> (r: Option<String>)
    ensures
        opt_text(r) == stdin_in(sources@),
{
    let mut i: usize = 0;
    assert(sources@.subrange(0, sources@.len() as int) =~= sources@);
    while i < sources.len()
        invariant
            i <= sources@.len(),
            stdin_in(sources@) == stdin_in(sources@.subrange(i as int, sources@.len() as int)),
        decreases sources@.len() - i,
    {
        assert(sources@.subrange(i as int, sources@.len() as int).drop_first()
            =~= sources@.subrange(i + 1, sources@.len() as int));
        match &sources[i] {
            ArgSource::Stdin { stdin } => {
                return Some(stdin.clone());
            },
            ArgSource::Other => {},
        }
        i = i + 1;
    }
    None
}

impl Cap {
    /// The canonical text of the cap's URN.
    pub fn urn_string(&self) -> (r: String)
        ensures
            r@ == cap_text(self.urn@),
    {
        self.urn.to_string()
    }

    /// The names that the cap declares for itself.
    pub fn get_aliases(&self) -> (r: &Vec<String>)
        ensures
            *r == self.aliases,
    {
        &self.aliases
    }

    /// Whether the cap takes a sequence, and whether it gives one.
    pub fn sequence_shape(&self) -> (r: (bool, bool))
        ensures
            r == (self.input_is_sequence, self.output_is_sequence),
    {
        (self.input_is_sequence, self.output_is_sequence)
    }

    /// The media URN that the cap reads from standard input, if it does.
    pub fn get_stdin_media_urn(&self) -> (r: Option<String>)
        ensures
            opt_text(r) == stdin_of(self.args@),
    {
        let mut i: usize = 0;
        assert(self.args@.subrange(0, self.args@.len() as int) =~= self.args@);
        while i < self.args.len()
            invariant
                i <= self.args@.len(),
                stdin_of(self.args@) == stdin_of(
                    self.args@.subrange(i as int, self.args@.len() as int),
                ),
            decreases self.args@.len() - i,
        {
            assert(self.args@.subrange(i as int, self.args@.len() as int).drop_first()
                =~= self.args@.subrange(i + 1, self.args@.len() as int));
            let found = find_stdin(&self.args[i].sources);
            if found.is_some() {
                return found;
            }
            i = i + 1;
        }
        None
    }
}

/// A media definition as the registry stores it.
#[derive(Debug, PartialEq, Eq)]
pub struct StoredMediaDef {
    pub urn: String,
    /// The version of the definition; 0 for the unversioned snapshot.
    pub version: u32,
    pub media_type: String,
    pub title: String,
    pub profile_uri: Option<String>,
    /// A JSON Schema, as JSON text.
    pub schema: Option<String>,
    pub description: Option<String>,
    pub documentation: Option<String>,
    pub validation: Option<MediaValidation>,
    /// Free metadata, as JSON text.
    pub metadata: Option<String>,
    pub extensions: Vec<String>,
}

impl StoredMediaDef {
    /// The definition without its version, as it stands inside a cap.
    pub fn to_media_def_def(&self) -> (r: MediaDef)
        ensures
            r.urn@ == self.urn@,
            r.media_type@ == self.media_type@,
            r.title@ == self.title@,
            opt_text(r.profile_uri) == opt_text(self.profile_uri),
            opt_text(r.schema) == opt_text(self.schema),
            opt_text(r.description) == opt_text(self.description),
            opt_text(r.documentation) == opt_text(self.documentation),
            same_validation(r.validation, self.validation),
            opt_text(r.metadata) == opt_text(self.metadata),
            texts(r.extensions@) == texts(self.extensions@),
    {
        MediaDef {
            urn: self.urn.clone(),
            media_type: self.media_type.clone(),
            title: self.title.clone(),
            profile_uri: clone_opt(&self.profile_uri),
            schema: clone_opt(&self.schema),
            description: clone_opt(&self.description),
            documentation: clone_opt(&self.documentation),
            validation: copy_validation(&self.validation),
            metadata: clone_opt(&self.metadata),
            extensions: clone_texts(&self.extensions),
        }
    }
}

/// Whether an entry that was cached at `cached_at` (in seconds) for `ttl_hours`
/// hours is out of date at `now`.
pub fn is_expired(cached_at: u64, ttl_hours: u64, now: u64) -> (r: bool)
    requires
        cached_at + ttl_hours * 3600 <= u64::MAX,
    ensures
        r == (now > cached_at + ttl_hours * 3600),
{
    now > cached_at + ttl_hours * 3600
}

/// Whether a cached definition is kept when the cache is read: one with a
/// version never changes and is always kept; one without is kept until it is
/// out of date.
pub fn keeps_cached(version: u32, cached_at: u64, ttl_hours: u64, now: u64) -> (r: bool)
    requires
        cached_at + ttl_hours * 3600 <= u64::MAX,
    ensures
        r == (version != 0 || now <= cached_at + ttl_hours * 3600),
{
    !(version == 0 && is_expired(cached_at, ttl_hours, now))
}

// ---------------------------------------------------------------------------
// Canonical URNs
// ---------------------------------------------------------------------------

/// The canonical form of a cap URN; a text that is no cap URN stays as it is.
pub open spec fn norm_cap(s: Seq<char>) -> Seq<char> {
    match cap_parse(s) {
        Some(ts) => cap_text(ts),
        None => s,
    }
}

/// The canonical form of a media URN; a text that is no media URN stays as it
/// is.
pub open spec fn norm_media(s: Seq<char>) -> Seq<char> {
    match media_parse(s) {
        Some(ts) => media_text(ts),
        None => s,
    }
}

/// The canonical form of a cap URN; a text that is no cap URN stays as it is.
pub fn normalize_cap_urn(urn: &str) -> (r: String)
    ensures
        r@ == norm_cap(urn@),
{
    match CapUrn::from_string(urn) {
        Ok(parsed) => parsed.to_string(),
        Err(_) => owned(urn),
    }
}

/// The canonical form of a media URN; a text that is no media URN stays as it
/// is.
pub fn normalize_media_urn(urn: &str) -> (r: String)
    ensures
        r@ == norm_media(urn@),
{
    match MediaUrn::from_string(urn) {
        Ok(parsed) => parsed.to_string(),
        Err(_) => owned(urn),
    }
}

/// Law: putting a URN into canonical form a second time changes nothing.
pub proof fn law_normalizing_is_idempotent(s: Seq<char>)
    ensures
        norm_cap(norm_cap(s)) == norm_cap(s),
        norm_media(norm_media(s)) == norm_media(s),
{
    if cap_parse(s) is Some {
        crate::urn::law_cap_text_reads_back(s);
    }
    if media_parse(s) is Some {
        crate::urn::law_media_text_reads_back(s);
    }
}

// ---------------------------------------------------------------------------
// The snapshot
// ---------------------------------------------------------------------------

/// A snapshot of the registry: the version of each definition that belongs to
/// it.
#[derive(Debug)]
pub struct Manifest {
    pub version: u32,
    pub previous: u32,
    pub caps: TextMap<u32>,
    pub media: TextMap<u32>,
}

impl Manifest {
    /// No URN is listed twice.
    pub open spec fn wf(&self) -> bool {
        self.caps.wf() && self.media.wf()
    }

    /// The snapshot of this version without definitions; the one before it is
    /// its predecessor.
    pub fn empty(version: u32) -> (r: Self)
        ensures
            r.wf(),
            r.version == version,
            r.previous == (if version == 0 {
                0
            } else {
                version - 1
            }),
            r.caps@ == Map::<Seq<char>, u32>::empty(),
            r.media@ == Map::<Seq<char>, u32>::empty(),
    {
        Manifest {
            version,
            previous: version.saturating_sub(1),
            caps: TextMap::new(),
            media: TextMap::new(),
        }
    }

    /// Checks that a snapshot that was asked for as `version` says so itself.
    /// `cached_at` is the file that it was read from, `None` where it was
    /// fetched.
    pub fn check_version(&self, version: u32, cached_at: Option<&str>) -> (r: Result<
        (),
        FabricRegistryError,
    >)
        ensures
            match r {
                Ok(()) => self.version == version,
                Err(e) => {
                    &&& self.version != version
                    &&& e matches FabricRegistryError::ParseError(text)
                    &&& text@ == (match cached_at {
                        Some(file) => "Cached manifest at "@ + file@ + " reports version "@
                            + decimal(self.version as nat) + " but file is "@ + decimal(
                            version as nat,
                        ) + ".json"@,
                        None => "Manifest fetched as v"@ + decimal(version as nat)
                            + " reports version "@ + decimal(self.version as nat),
                    })
                },
            },
    {
        if self.version == version {
            return Ok(());
        }
        let text = match cached_at {
            Some(file) => {
                let mut t = owned("Cached manifest at ");
                add_text(&mut t, file);
                add_text(&mut t, " reports version ");
                add_text(&mut t, &decimal_text(self.version as u64));
                add_text(&mut t, " but file is ");
                add_text(&mut t, &decimal_text(version as u64));
                add_text(&mut t, ".json");
                t
            },
            None => {
                let mut t = owned("Manifest fetched as v");
                add_text(&mut t, &decimal_text(version as u64));
                add_text(&mut t, " reports version ");
                add_text(&mut t, &decimal_text(self.version as u64));
                t
            },
        };
        Err(FabricRegistryError::ParseError(text))
    }
}

/// The URL of a snapshot.
pub fn manifest_url(config: &RegistryConfig, version: u32) -> (r: String)
    ensures
        r@ == config.registry_base_url@ + "/manifest/"@ + decimal(version as nat) + ".json"@,
{
    let mut out = config.registry_base_url.clone();
    add_text(&mut out, "/manifest/");
    add_text(&mut out, &decimal_text(version as u64));
    add_text(&mut out, ".json");
    out
}

// ---------------------------------------------------------------------------
// Where definitions are
// ---------------------------------------------------------------------------

/// Where a definition is fetched from, and where it is cached: the names from
/// the cache directory down to the file.
#[derive(Debug)]
pub struct FetchRequest {
    pub url: String,
    pub path: Vec<String>,
}

/// The URL of a definition: under the digest of its canonical URN, and under
/// its version where it has one.
pub open spec fn object_url(
    base: Seq<char>,
    section: Seq<char>,
    urn: Seq<char>,
    defver: u32,
) -> Seq<char> {
    if defver == 0 {
        base + "/"@ + section + "/"@ + text_digest(urn)
    } else {
        base + "/"@ + section + "/"@ + text_digest(urn) + "/"@ + decimal(defver as nat) + ".json"@
    }
}

/// The cache file of a definition, name by name.
pub open spec fn object_path(section: Seq<char>, urn: Seq<char>, defver: u32) -> Seq<Seq<char>> {
    if defver == 0 {
        seq![section, text_digest(urn) + ".json"@]
    } else {
        seq![section, text_digest(urn), decimal(defver as nat) + ".json"@]
    }
}

/// Law: the file of a definition is cached under its section; under the digest
/// of its URN, where it has no version; else in a directory with that name, as
/// its version. A definition with a version is fetched from the names of its
/// cache file below the base, one without from the same names but for the
/// ending.
pub proof fn law_url_names_the_cache_file(
    base: Seq<char>,
    section: Seq<char>,
    urn: Seq<char>,
    defver: u32,
)
    ensures
        defver == 0 ==> {
            let names = object_path(section, urn, defver);
            &&& names == seq![section, text_digest(urn) + ".json"@]
            &&& object_url(base, section, urn, defver) + ".json"@ == base + "/"@ + names[0] + "/"@
                + names[1]
        },
        defver != 0 ==> {
            let names = object_path(section, urn, defver);
            &&& names == seq![section, text_digest(urn), decimal(defver as nat) + ".json"@]
            &&& object_url(base, section, urn, defver) == base + "/"@ + names[0] + "/"@ + names[1]
                + "/"@ + names[2]
        },
{
    let names = object_path(section, urn, defver);
    if defver == 0 {
        assert(object_url(base, section, urn, defver) + ".json"@ =~= base + "/"@ + names[0] + "/"@
            + names[1]);
    } else {
        assert(object_url(base, section, urn, defver) =~= base + "/"@ + names[0] + "/"@ + names[1]
            + "/"@ + names[2]);
    }
}

fn object_request(config: &RegistryConfig, section: &str, urn: &str, defver: u32) -> (r:
    FetchRequest)
    ensures
        r.url@ == object_url(config.registry_base_url@, section@, urn@, defver),
        texts(r.path@) == object_path(section@, urn@, defver),
{
    let hash = digest_text(urn);
    let mut url = config.registry_base_url.clone();
    add_text(&mut url, "/");
    add_text(&mut url, section);
    add_text(&mut url, "/");
    add_text(&mut url, &hash);
    let mut path: Vec<String> = Vec::new();
    path.push(owned(section));
    if defver == 0 {
        let mut file = hash;
        add_text(&mut file, ".json");
        path.push(file);
        assert(texts(path@) =~= object_path(section@, urn@, defver));
    } else {
        add_text(&mut url, "/");
        add_text(&mut url, &decimal_text(defver as u64));
        add_text(&mut url, ".json");
        let mut file = decimal_text(defver as u64);
        add_text(&mut file, ".json");
        path.push(hash);
        path.push(file);
        assert(texts(path@) =~= object_path(section@, urn@, defver));
    }
    FetchRequest { url, path }
}

/// Where a cap definition is.
pub fn cap_url_and_cache_path(config: &RegistryConfig, normalized_urn: &str, defver: u32) -> (r:
    FetchRequest)
    ensures
        r.url@ == object_url(config.registry_base_url@, "caps"@, normalized_urn@, defver),
        texts(r.path@) == object_path("caps"@, normalized_urn@, defver),
        r.path@[0]@ == "caps"@,
        defver == 0 ==> {
            &&& r.path@.len() == 2
            &&& r.path@[1]@ == text_digest(normalized_urn@) + ".json"@
            &&& r.url@ == config.registry_base_url@ + "/"@ + "caps"@ + "/"@ + text_digest(
                normalized_urn@,
            )
        },
        defver != 0 ==> {
            &&& r.path@.len() == 3
            &&& r.path@[1]@ == text_digest(normalized_urn@)
            &&& r.path@[2]@ == decimal(defver as nat) + ".json"@
            &&& r.url@ == config.registry_base_url@ + "/"@ + r.path@[0]@ + "/"@ + r.path@[1]@ + "/"@
                + r.path@[2]@
        },
{
    let r = object_request(config, "caps", normalized_urn, defver);
    proof {
        let names = texts(r.path@);
        assert(names.len() == r.path@.len());
        assert(names[0] == r.path@[0]@ && names[1] == r.path@[1]@);
        if defver != 0 {
            assert(names[2] == r.path@[2]@);
            law_url_names_the_cache_file(
                config.registry_base_url@,
                "caps"@,
                normalized_urn@,
                defver,
            );
        }
    }
    r
}

/// Where a media definition is.
pub fn media_url_and_cache_path(config: &RegistryConfig, normalized_urn: &str, defver: u32) -> (r:
    FetchRequest)
    ensures
        r.url@ == object_url(config.registry_base_url@, "media"@, normalized_urn@, defver),
        texts(r.path@) == object_path("media"@, normalized_urn@, defver),
        r.path@[0]@ == "media"@,
        defver == 0 ==> {
            &&& r.path@.len() == 2
            &&& r.path@[1]@ == text_digest(normalized_urn@) + ".json"@
            &&& r.url@ == config.registry_base_url@ + "/"@ + "media"@ + "/"@ + text_digest(
                normalized_urn@,
            )
        },
        defver != 0 ==> {
            &&& r.path@.len() == 3
            &&& r.path@[1]@ == text_digest(normalized_urn@)
            &&& r.path@[2]@ == decimal(defver as nat) + ".json"@
            &&& r.url@ == config.registry_base_url@ + "/"@ + r.path@[0]@ + "/"@ + r.path@[1]@ + "/"@
                + r.path@[2]@
        },
{
    let r = object_request(config, "media", normalized_urn, defver);
    proof {
        let names = texts(r.path@);
        assert(names.len() == r.path@.len());
        assert(names[0] == r.path@[0]@ && names[1] == r.path@[1]@);
        if defver != 0 {
            assert(names[2] == r.path@[2]@);
            law_url_names_the_cache_file(
                config.registry_base_url@,
                "media"@,
                normalized_urn@,
                defver,
            );
        }
    }
    r
}

// ---------------------------------------------------------------------------
// The media URNs that a cap refers to
// ---------------------------------------------------------------------------

/// One more reference: the canonical URN, once, and never the one that stands
/// for any media.
pub open spec fn add_ref(v: Seq<Seq<char>>, s: Seq<char>) -> Seq<Seq<char>> {
    let n = norm_media(s);
    if n != "media:"@ && !v.contains(n) {
        v.push(n)
    } else {
        v
    }
}

/// The references of an argument's sources behind those of `v`.
pub open spec fn refs_of_sources(v: Seq<Seq<char>>, sources: Seq<ArgSource>) -> Seq<Seq<char>>
    decreases sources.len(),
{
    if sources.len() == 0 {
        v
    } else {
        let before = refs_of_sources(v, sources.drop_last());
        match sources.last() {
            ArgSource::Stdin { stdin } => add_ref(before, stdin@),
            ArgSource::Other => before,
        }
    }
}

/// The references of the arguments behind those of `v`.
pub open spec fn refs_of_args(v: Seq<Seq<char>>, args: Seq<CapArg>) -> Seq<Seq<char>>
    decreases args.len(),
{
    if args.len() == 0 {
        v
    } else {
        let before = refs_of_args(v, args.drop_last());
        refs_of_sources(add_ref(before, args.last().media_urn@), args.last().sources@)
    }
}

/// The media URNs that a cap refers to: what it takes and gives, its arguments
/// with their standard input, and its output.
pub open spec fn refs_of(cap: Cap) -> Seq<Seq<char>> {
    let ends = add_ref(
        add_ref(Seq::empty(), direction(cap.urn@, "in"@)),
        direction(cap.urn@, "out"@),
    );
    let with_args = refs_of_args(ends, cap.args@);
    match cap.output {
        Some(o) => add_ref(with_args, o@),
        None => with_args,
    }
}

fn push_ref(v: &mut Vec<String>, s: &str)
    ensures
        texts(final(v)@) == add_ref(texts(old(v)@), s@),
{
    let n = normalize_media_urn(s);
    if !same_text(&n, "media:") && !has_text(v, &n) {
        let ghost before = texts(v@);
        let ghost nv = n@;
        v.push(n);
        assert(texts(v@) =~= before.push(nv));
    }
}

fn push_source_refs(v: &mut Vec<String>, sources: &Vec<ArgSource>)
    ensures
        texts(final(v)@) == refs_of_sources(texts(old(v)@), sources@),
{
    let ghost start = texts(v@);
    let mut i: usize = 0;
    assert(sources@.subrange(0, 0) =~= Seq::<ArgSource>::empty());
    while i < sources.len()
        invariant
            i <= sources@.len(),
            texts(v@) == refs_of_sources(start, sources@.subrange(0, i as int)),
        decreases sources@.len() - i,
    {
        assert(sources@.subrange(0, i + 1).drop_last() =~= sources@.subrange(0, i as int));
        match &sources[i] {
            ArgSource::Stdin { stdin } => {
                push_ref(v, stdin);
            },
            ArgSource::Other => {},
        }
        i = i + 1;
    }
    assert(sources@.subrange(0, sources@.len() as int) =~= sources@);
}

/// The media URNs that a cap refers to.
pub fn referenced_media_urns(cap: &Cap) -> (r: Vec<String>)
    ensures
        texts(r@) == refs_of(*cap),
{
    let mut v: Vec<String> = Vec::new();
    assert(texts(v@) =~= Seq::<Seq<char>>::empty());
    push_ref(&mut v, &cap.urn.in_spec());
    push_ref(&mut v, &cap.urn.out_spec());
    let ghost ends = texts(v@);
    let mut i: usize = 0;
    assert(cap.args@.subrange(0, 0) =~= Seq::<CapArg>::empty());
    while i < cap.args.len()
        invariant
            i <= cap.args@.len(),
            texts(v@) == refs_of_args(ends, cap.args@.subrange(0, i as int)),
        decreases cap.args@.len() - i,
    {
        assert(cap.args@.subrange(0, i + 1).drop_last() =~= cap.args@.subrange(0, i as int));
        push_ref(&mut v, &cap.args[i].media_urn);
        push_source_refs(&mut v, &cap.args[i].sources);
        i = i + 1;
    }
    assert(cap.args@.subrange(0, cap.args@.len() as int) =~= cap.args@);
    match &cap.output {
        Some(o) => {
            push_ref(&mut v, o);
        },
        None => {},
    }
    v
}

/// A reference that is there stays, and one that is added is there.
proof fn lemma_add_ref(v: Seq<Seq<char>>, s: Seq<char>)
    ensures
        forall|x: Seq<char>| v.contains(x) ==> add_ref(v, s).contains(x),
        norm_media(s) != "media:"@ ==> add_ref(v, s).contains(norm_media(s)),
        !v.contains("media:"@) ==> !add_ref(v, s).contains("media:"@),
        v.no_duplicates() ==> add_ref(v, s).no_duplicates(),
{
    let n = norm_media(s);
    let w = add_ref(v, s);
    if n != "media:"@ && !v.contains(n) {
        assert(w[w.len() - 1] == n);
        assert forall|x: Seq<char>| v.contains(x) implies w.contains(x) by {
            let i = v.index_of(x);
            assert(w[i] == x);
        }
        if w.contains("media:"@) {
            let i = w.index_of("media:"@);
            assert(i < v.len());
            assert(v[i] == "media:"@);
        }
    }
}

proof fn lemma_refs_of_sources(v: Seq<Seq<char>>, sources: Seq<ArgSource>)
    ensures
        forall|x: Seq<char>| v.contains(x) ==> refs_of_sources(v, sources).contains(x),
        !v.contains("media:"@) ==> !refs_of_sources(v, sources).contains("media:"@),
        v.no_duplicates() ==> refs_of_sources(v, sources).no_duplicates(),
    decreases sources.len(),
{
    if sources.len() > 0 {
        let before = refs_of_sources(v, sources.drop_last());
        lemma_refs_of_sources(v, sources.drop_last());
        if let ArgSource::Stdin { stdin } = sources.last() {
            lemma_add_ref(before, stdin@);
        }
    }
}

proof fn lemma_refs_of_args(v: Seq<Seq<char>>, args: Seq<CapArg>)
    ensures
        forall|x: Seq<char>| v.contains(x) ==> refs_of_args(v, args).contains(x),
        !v.contains("media:"@) ==> !refs_of_args(v, args).contains("media:"@),
        v.no_duplicates() ==> refs_of_args(v, args).no_duplicates(),
    decreases args.len(),
{
    if args.len() > 0 {
        let before = refs_of_args(v, args.drop_last());
        lemma_refs_of_args(v, args.drop_last());
        lemma_add_ref(before, args.last().media_urn@);
        lemma_refs_of_sources(add_ref(before, args.last().media_urn@), args.last().sources@);
    }
}

/// Law: the references of a cap hold what it takes and what it gives, no URN
/// twice, and never the URN that stands for any media.
pub proof fn law_references_are_distinct_and_definite(cap: Cap)
    ensures
        refs_of(cap).no_duplicates(),
        !refs_of(cap).contains("media:"@),
        norm_media(direction(cap.urn@, "in"@)) != "media:"@ ==> refs_of(cap).contains(
            norm_media(direction(cap.urn@, "in"@)),
        ),
        norm_media(direction(cap.urn@, "out"@)) != "media:"@ ==> refs_of(cap).contains(
            norm_media(direction(cap.urn@, "out"@)),
        ),
        cap.output is Some && norm_media(cap.output->0@) != "media:"@ ==> refs_of(cap).contains(
            norm_media(cap.output->0@),
        ),
{
    let none = Seq::<Seq<char>>::empty();
    let one = add_ref(none, direction(cap.urn@, "in"@));
    let two = add_ref(one, direction(cap.urn@, "out"@));
    let args = refs_of_args(two, cap.args@);
    assert(!none.contains("media:"@));
    assert(none.no_duplicates());
    lemma_add_ref(none, direction(cap.urn@, "in"@));
    lemma_add_ref(one, direction(cap.urn@, "out"@));
    lemma_refs_of_args(two, cap.args@);
    if let Some(o) = cap.output {
        lemma_add_ref(args, o@);
    }
}

// ---------------------------------------------------------------------------
// The extension index
// ---------------------------------------------------------------------------

/// The index from extension to media URNs, in the model.
pub open spec fn index_view(idx: TextMap<Vec<String>>) -> Map<Seq<char>, Seq<Seq<char>>> {
    Map::new(|k: Seq<char>| idx@.dom().contains(k), |k: Seq<char>| texts(idx@[k]@))
}

/// The URNs under an extension.
pub open spec fn urns_under(m: Map<Seq<char>, Seq<Seq<char>>>, ext: Seq<char>) -> Seq<Seq<char>> {
    if m.dom().contains(ext) {
        m[ext]
    } else {
        Seq::empty()
    }
}

/// The index with `urn` behind the URNs of the extension `ext`, which is looked
/// up in lowercase. With `once`, a URN that is there already is not added.
pub open spec fn index_one(
    m: Map<Seq<char>, Seq<Seq<char>>>,
    ext: Seq<char>,
    urn: Seq<char>,
    once: bool,
) -> Map<Seq<char>, Seq<Seq<char>>> {
    let k = lowercase(ext);
    if once && urns_under(m, k).contains(urn) {
        m
    } else {
        m.insert(k, urns_under(m, k).push(urn))
    }
}

/// The index with `urn` under each of the extensions.
pub open spec fn index_all(
    m: Map<Seq<char>, Seq<Seq<char>>>,
    exts: Seq<Seq<char>>,
    urn: Seq<char>,
    once: bool,
) -> Map<Seq<char>, Seq<Seq<char>>>
    decreases exts.len(),
{
    if exts.len() == 0 {
        m
    } else {
        index_one(index_all(m, exts.drop_last(), urn, once), exts.last(), urn, once)
    }
}

/// The index of a list of definitions.
pub open spec fn index_of_defs(defs: Seq<(String, StoredMediaDef)>) -> Map<
    Seq<char>,
    Seq<Seq<char>>,
>
    decreases defs.len(),
{
    if defs.len() == 0 {
        Map::empty()
    } else {
        let d = defs.last().1;
        index_all(index_of_defs(defs.drop_last()), texts(d.extensions@), d.urn@, false)
    }
}

/// Puts `urn` under one extension.
fn index_extension(idx: &mut TextMap<Vec<String>>, ext: &str, urn: &str, once: bool)
    requires
        old(idx).wf(),
    ensures
        final(idx).wf(),
        index_view(*final(idx)) == index_one(index_view(*old(idx)), ext@, urn@, once),
{
    let k = to_lowercase(ext);
    let ghost before = index_view(*idx);
    let mut urns = match idx.get(&k) {
        Some(v) => clone_texts(v),
        None => Vec::new(),
    };
    assert(texts(urns@) =~= urns_under(before, k@));
    if once && has_text(&urns, urn) {
        return;
    }
    let ghost old_map = idx@;
    let ghost old_urns = texts(urns@);
    urns.push(owned(urn));
    assert(texts(urns@) =~= old_urns.push(urn@));
    idx.insert(k, urns);
    assert(index_view(*idx) =~= index_one(before, ext@, urn@, once));
}

/// Puts `urn` under each of the extensions.
fn index_extensions(idx: &mut TextMap<Vec<String>>, exts: &Vec<String>, urn: &str, once: bool)
    requires
        old(idx).wf(),
    ensures
        final(idx).wf(),
        index_view(*final(idx)) == index_all(index_view(*old(idx)), texts(exts@), urn@, once),
{
    let ghost start = index_view(*idx);
    let mut i: usize = 0;
    assert(texts(exts@).subrange(0, 0) =~= Seq::<Seq<char>>::empty());
    while i < exts.len()
        invariant
            i <= exts@.len(),
            idx.wf(),
            index_view(*idx) == index_all(start, texts(exts@).subrange(0, i as int), urn@, once),
        decreases exts@.len() - i,
    {
        assert(texts(exts@).subrange(0, i + 1).drop_last() =~= texts(exts@).subrange(0, i as int));
        index_extension(idx, &exts[i], urn, once);
        i = i + 1;
    }
    assert(texts(exts@).subrange(0, exts@.len() as int) =~= texts(exts@));
}

/// The index of the definitions, in their order.
pub fn build_extension_index(defs: &TextMap<StoredMediaDef>) -> (r: TextMap<Vec<String>>)
    ensures
        r.wf(),
        index_view(r) == index_of_defs(defs.entries@),
{
    let mut idx: TextMap<Vec<String>> = TextMap::new();
    let mut i: usize = 0;
    assert(index_view(idx) =~= Map::<Seq<char>, Seq<Seq<char>>>::empty());
    assert(defs.entries@.subrange(0, 0) =~= Seq::<(String, StoredMediaDef)>::empty());
    while i < defs.entries.len()
        invariant
            i <= defs.entries@.len(),
            idx.wf(),
            index_view(idx) == index_of_defs(defs.entries@.subrange(0, i as int)),
        decreases defs.entries@.len() - i,
    {
        assert(defs.entries@.subrange(0, i + 1).drop_last() =~= defs.entries@.subrange(
            0,
            i as int,
        ));
        index_extensions(
            &mut idx,
            &defs.entries[i].1.extensions,
            &defs.entries[i].1.urn,
            false,
        );
        i = i + 1;
    }
    assert(defs.entries@.subrange(0, defs.entries@.len() as int) =~= defs.entries@);
    idx
}

proof fn lemma_index_all(
    m: Map<Seq<char>, Seq<Seq<char>>>,
    exts: Seq<Seq<char>>,
    urn: Seq<char>,
    once: bool,
)
    ensures
        forall|i: int|
            0 <= i < exts.len() ==> urns_under(
                index_all(m, exts, urn, once),
                lowercase(#[trigger] exts[i]),
            ).contains(urn),
        forall|k: Seq<char>, u: Seq<char>|
            urns_under(m, k).contains(u) ==> #[trigger] urns_under(
                index_all(m, exts, urn, once),
                k,
            ).contains(u),
    decreases exts.len(),
{
    if exts.len() > 0 {
        let before = index_all(m, exts.drop_last(), urn, once);
        lemma_index_all(m, exts.drop_last(), urn, once);
        let after = index_all(m, exts, urn, once);
        let last = lowercase(exts.last());
        assert forall|k: Seq<char>, u: Seq<char>|
            urns_under(before, k).contains(u) implies #[trigger] urns_under(after, k).contains(
            u,
        ) by {
            if k == last && after != before {
                let i = urns_under(before, k).index_of(u);
                assert(urns_under(after, k)[i] == u);
            }
        }
        assert(urns_under(after, last).contains(urn)) by {
            if after != before {
                let w = urns_under(after, last);
                assert(w[w.len() - 1] == urn);
            }
        }
        assert forall|i: int| 0 <= i < exts.len() implies urns_under(
            after,
            lowercase(#[trigger] exts[i]),
        ).contains(urn) by {
            if i < exts.len() - 1 {
                assert(exts.drop_last()[i] == exts[i]);
            }
        }
    }
}

/// Law: a definition is found under each of its extensions, in whatever case,
/// and what was found before is still found.
pub proof fn law_definition_is_found_by_extension(
    m: Map<Seq<char>, Seq<Seq<char>>>,
    exts: Seq<Seq<char>>,
    urn: Seq<char>,
    ext: Seq<char>,
    i: int,
)
    requires
        0 <= i < exts.len(),
        lowercase(ext) == lowercase(exts[i]),
    ensures
        urns_under(index_all(m, exts, urn, true), lowercase(ext)).contains(urn),
        forall|k: Seq<char>, u: Seq<char>|
            urns_under(m, k).contains(u) ==> #[trigger] urns_under(
                index_all(m, exts, urn, true),
                k,
            ).contains(u),
{
    lemma_index_all(m, exts, urn, true);
    assert(urns_under(index_all(m, exts, urn, true), lowercase(exts[i])).contains(urn));
}

// ---------------------------------------------------------------------------
// The registry
// ---------------------------------------------------------------------------

/// A definition that waits to be fetched in the background.
#[derive(Debug, PartialEq, Eq)]
pub enum FetchKey {
    Cap { urn: String, defver: u32 },
    Media { urn: String, defver: u32 },
}

/// The key in the model: whether it is a cap, its URN and its version.
pub open spec fn fetch_key(k: FetchKey) -> (bool, Seq<char>, u32) {
    match k {
        FetchKey::Cap { urn, defver } => (true, urn@, defver),
        FetchKey::Media { urn, defver } => (false, urn@, defver),
    }
}

/// The keys of a queue in the model.
pub open spec fn fetch_keys(q: Seq<FetchKey>) -> Seq<(bool, Seq<char>, u32)> {
    Seq::new(q.len(), |i: int| fetch_key(q[i]))
}

/// Whether two keys name the same definition.
fn same_key(a: &FetchKey, b: &FetchKey) -> (r: bool)
    ensures
        r == (fetch_key(*a) == fetch_key(*b)),
{
    match (a, b) {
        (FetchKey::Cap { urn: x, defver: v }, FetchKey::Cap { urn: y, defver: w }) => *v == *w
            && same_text(x, y),
        (FetchKey::Media { urn: x, defver: v }, FetchKey::Media { urn: y, defver: w }) => *v == *w
            && same_text(x, y),
        _ => false,
    }
}

/// Where a definition that was asked for is.
#[derive(Debug)]
pub enum Located {
    /// In the cache.
    Cached,
    /// Not cached: to be fetched under this canonical URN at this version.
    Fetch { urn: String, defver: u32 },
    /// Not part of the snapshot.
    Unknown(FabricRegistryError),
}

/// The registry: what is cached, and the snapshot it is pinned to.
#[derive(Debug)]
pub struct FabricRegistry {
    /// The caps by canonical URN.
    pub cached_caps: TextMap<Cap>,
    /// The media definitions by canonical URN.
    pub cached_media_defs: TextMap<StoredMediaDef>,
    /// The media URNs by lowercase extension.
    pub extension_index: TextMap<Vec<String>>,
    /// The aliases by name.
    pub aliases: TextMap<StoredAlias>,
    pub config: RegistryConfig,
    /// The version of the snapshot; 0 for the unversioned one.
    pub manifest_version: u32,
    pub manifest: Manifest,
    pub offline: bool,
    /// Whether something takes definitions off the queue.
    pub queue_open: bool,
    /// The definitions that wait to be fetched.
    pub fetch_queue: Vec<FetchKey>,
    /// Counts the changes of the caches.
    pub revision: u64,
}

/// The message for a cap that is not part of the snapshot.
pub open spec fn not_in_manifest_text(kind: Seq<char>, urn: Seq<char>, version: u32) -> Seq<char> {
    kind + " '"@ + urn + "' is not part of manifest v"@ + decimal(version as nat)
}

/// The version under which a cap is fetched: 0 in the unversioned snapshot,
/// else what the snapshot says; `None` where it does not list the cap.
pub open spec fn cap_version(reg: FabricRegistry, urn: Seq<char>) -> Option<u32> {
    if reg.manifest_version == 0 {
        Some(0)
    } else if reg.manifest.caps@.dom().contains(urn) {
        Some(reg.manifest.caps@[urn])
    } else {
        None
    }
}

/// The version under which a media definition is fetched; as for caps, and 0
/// for the URN that stands for any media.
pub open spec fn media_version(reg: FabricRegistry, urn: Seq<char>) -> Option<u32> {
    if reg.manifest_version == 0 || urn == "media:"@ {
        Some(0)
    } else if reg.manifest.media@.dom().contains(urn) {
        Some(reg.manifest.media@[urn])
    } else {
        None
    }
}

/// Every media definition that the cap refers to is one of `had`.
pub open spec fn footprint_in(had: Set<Seq<char>>, cap: Cap) -> bool {
    forall|i: int| 0 <= i < refs_of(cap).len() ==> had.contains(#[trigger] refs_of(cap)[i])
}

/// Every media definition that the cap refers to is cached.
pub open spec fn footprint_cached(reg: FabricRegistry, cap: Cap) -> bool {
    footprint_in(reg.cached_media_defs@.dom(), cap)
}

/// The media definitions `m` with `defs` besides them.
pub open spec fn with_defs(
    m: Map<Seq<char>, StoredMediaDef>,
    defs: Seq<(String, StoredMediaDef)>,
) -> Map<Seq<char>, StoredMediaDef>
    decreases defs.len(),
{
    if defs.len() == 0 {
        m
    } else {
        with_defs(m, defs.drop_last()).insert(defs.last().0@, defs.last().1)
    }
}

/// The index `m` with `defs` in it besides.
pub open spec fn index_with_defs(
    m: Map<Seq<char>, Seq<Seq<char>>>,
    defs: Seq<(String, StoredMediaDef)>,
) -> Map<Seq<char>, Seq<Seq<char>>>
    decreases defs.len(),
{
    if defs.len() == 0 {
        m
    } else {
        let d = defs.last().1;
        index_all(index_with_defs(m, defs.drop_last()), texts(d.extensions@), d.urn@, true)
    }
}

/// `b` is `a` but for the caches, the index, the snapshot, the queue and the
/// revision.
pub open spec fn same_setup(a: FabricRegistry, b: FabricRegistry) -> bool {
    &&& a.aliases == b.aliases
    &&& a.config == b.config
    &&& a.manifest_version == b.manifest_version
    &&& a.offline == b.offline
    &&& a.queue_open == b.queue_open
}

/// The map without the entries that `keep` refuses.
pub open spec fn retained<V>(m: Map<Seq<char>, V>, keep: spec_fn(Seq<char>, V) -> bool) -> Map<
    Seq<char>,
    V,
> {
    Map::new(|k: Seq<char>| m.dom().contains(k) && keep(k, m[k]), |k: Seq<char>| m[k])
}

/// A cached cap belongs to the snapshot: it has the version that the snapshot
/// lists, or none where it lists none.
pub open spec fn cap_pinned(manifest: Manifest) -> spec_fn(Seq<char>, Cap) -> bool {
    |urn: Seq<char>, cap: Cap|
        cap.version == (if manifest.caps@.dom().contains(urn) {
            manifest.caps@[urn]
        } else {
            0
        })
}

/// A cached media definition belongs to the snapshot.
pub open spec fn media_pinned(manifest: Manifest) -> spec_fn(Seq<char>, StoredMediaDef) -> bool {
    |urn: Seq<char>, def: StoredMediaDef|
        def.version == (if manifest.media@.dom().contains(urn) {
            manifest.media@[urn]
        } else {
            0
        })
}

/// Keeps the caps that belong to the snapshot.
fn retain_caps(caps: TextMap<Cap>, manifest: &Manifest) -> (r: TextMap<Cap>)
    requires
        caps.wf(),
        manifest.wf(),
    ensures
        r.wf(),
        r@ == retained(caps@, cap_pinned(*manifest)),
{
    let ghost all = caps.entries@;
    let mut out: TextMap<Cap> = TextMap::new();
    let ghost keep = cap_pinned(*manifest);
    assert(out@ =~= retained(map_of(all.subrange(0, 0)), keep)) by {
        assert forall|k: Seq<char>| !map_of(all.subrange(0, 0)).dom().contains(k) by {
            if map_of(all.subrange(0, 0)).dom().contains(k) {
                let i = choose|i: int| key_at(all.subrange(0, 0), k, i);
            }
        }
    }
    for entry in it: caps.entries.into_iter()
        invariant
            it.seq() == all,
            keys_unique(all),
            manifest.wf(),
            keep == cap_pinned(*manifest),
            out.wf(),
            out@ == retained(map_of(all.subrange(0, it.index() as int)), keep),
    {
        proof {
            lemma_retained_step(all, it.index() as int, keep);
        }
        let (urn, def) = entry;
        let pinned: u32 = match manifest.caps.get(&urn) {
            Some(v) => *v,
            None => 0,
        };
        if pinned == def.version {
            out.insert(urn, def);
        }
    }
    assert(all.subrange(0, all.len() as int) =~= all);
    out
}

/// Keeps the media definitions that belong to the snapshot.
fn retain_media(defs: TextMap<StoredMediaDef>, manifest: &Manifest) -> (r: TextMap<StoredMediaDef>)
    requires
        defs.wf(),
        manifest.wf(),
    ensures
        r.wf(),
        r@ == retained(defs@, media_pinned(*manifest)),
{
    let ghost all = defs.entries@;
    let mut out: TextMap<StoredMediaDef> = TextMap::new();
    let ghost keep = media_pinned(*manifest);
    assert(out@ =~= retained(map_of(all.subrange(0, 0)), keep)) by {
        assert forall|k: Seq<char>| !map_of(all.subrange(0, 0)).dom().contains(k) by {
            if map_of(all.subrange(0, 0)).dom().contains(k) {
                let i = choose|i: int| key_at(all.subrange(0, 0), k, i);
            }
        }
    }
    for entry in it: defs.entries.into_iter()
        invariant
            it.seq() == all,
            keys_unique(all),
            manifest.wf(),
            keep == media_pinned(*manifest),
            out.wf(),
            out@ == retained(map_of(all.subrange(0, it.index() as int)), keep),
    {
        proof {
            lemma_retained_step(all, it.index() as int, keep);
        }
        let (urn, def) = entry;
        let pinned: u32 = match manifest.media.get(&urn) {
            Some(v) => *v,
            None => 0,
        };
        if pinned == def.version {
            out.insert(urn, def);
        }
    }
    assert(all.subrange(0, all.len() as int) =~= all);
    out
}

/// One more entry is looked at.
proof fn lemma_retained_step<V>(
    all: Seq<(String, V)>,
    n: int,
    keep: spec_fn(Seq<char>, V) -> bool,
)
    requires
        keys_unique(all),
        0 <= n < all.len(),
    ensures
        retained(map_of(all.subrange(0, n + 1)), keep) == (if keep(all[n].0@, all[n].1) {
            retained(map_of(all.subrange(0, n)), keep).insert(all[n].0@, all[n].1)
        } else {
            retained(map_of(all.subrange(0, n)), keep)
        }),
{
    let a = all.subrange(0, n);
    let b = all.subrange(0, n + 1);
    let key = all[n].0@;
    assert forall|k: Seq<char>| map_of(b).dom().contains(k) == (map_of(a).dom().contains(k) || k
        == key) by {
        if map_of(b).dom().contains(k) {
            let i = lemma_key(b, k);
            if i < n {
                assert(key_at(a, k, i));
            }
        }
        if map_of(a).dom().contains(k) {
            let i = lemma_key(a, k);
            assert(key_at(b, k, i));
        }
        if k == key {
            assert(key_at(b, k, n));
        }
    }
    assert(!map_of(a).dom().contains(key)) by {
        if map_of(a).dom().contains(key) {
            let i = lemma_key(a, key);
            assert(all[i].0@ != all[n].0@);
        }
    }
    assert forall|k: Seq<char>| map_of(a).dom().contains(k) implies map_of(b)[k] == map_of(
        a,
    )[k] by {
        let i = lemma_key(a, k);
        lemma_entry(a, i);
        lemma_entry(b, i);
    }
    lemma_entry(b, n);
    assert(retained(map_of(b), keep) =~= (if keep(all[n].0@, all[n].1) {
        retained(map_of(a), keep).insert(key, all[n].1)
    } else {
        retained(map_of(a), keep)
    }));
}

/// What came back from a request for a definition.
#[derive(Debug)]
pub enum Reply<T> {
    /// The request failed, for this reason.
    Failed(String),
    /// The answer was not a success, but this status.
    Status(String),
    /// The answer could not be read as a definition, for this reason.
    Unreadable(String),
    /// The definition.
    Body(T),
}

/// The error for a reply without a definition; `kind` is how the definition is
/// called inside a sentence, `name` at its start.
pub open spec fn reply_error(
    reply: Reply<()>,
    kind: Seq<char>,
    name: Seq<char>,
    urn: Seq<char>,
    defver: u32,
    url: Seq<char>,
    e: FabricRegistryError,
) -> bool {
    match reply {
        Reply::Failed(why) => e matches FabricRegistryError::HttpError(text) && text@
            == "Failed to fetch "@ + kind + ": "@ + why@,
        Reply::Status(status) => e matches FabricRegistryError::NotFound(text) && text@ == name
            + " '"@ + urn + "' (defver "@ + decimal(defver as nat)
            + ") not found in registry (HTTP "@ + status@ + ") at "@ + url,
        Reply::Unreadable(why) => e matches FabricRegistryError::ParseError(text) && text@
            == "Failed to parse "@ + kind + " '"@ + urn + "': "@ + why@,
        Reply::Body(_) => false,
    }
}

/// The reply without its definition.
pub open spec fn shape<T>(reply: Reply<T>) -> Reply<()> {
    match reply {
        Reply::Failed(s) => Reply::Failed(s),
        Reply::Status(s) => Reply::Status(s),
        Reply::Unreadable(s) => Reply::Unreadable(s),
        Reply::Body(_) => Reply::Body(()),
    }
}

fn read_reply<T>(kind: &str, name: &str, urn: &str, defver: u32, url: &str, reply: Reply<T>) -> (r:
    Result<T, FabricRegistryError>)
    ensures
        match reply {
            Reply::Body(body) => r == Ok::<T, FabricRegistryError>(body),
            _ => r is Err && reply_error(
                shape(reply),
                kind@,
                name@,
                urn@,
                defver,
                url@,
                r->Err_0,
            ),
        },
{
    match reply {
        Reply::Body(body) => Ok(body),
        Reply::Failed(why) => {
            let mut t = owned("Failed to fetch ");
            add_text(&mut t, kind);
            add_text(&mut t, ": ");
            add_text(&mut t, &why);
            Err(FabricRegistryError::HttpError(t))
        },
        Reply::Status(status) => {
            let mut t = owned(name);
            add_text(&mut t, " '");
            add_text(&mut t, urn);
            add_text(&mut t, "' (defver ");
            add_text(&mut t, &decimal_text(defver as u64));
            add_text(&mut t, ") not found in registry (HTTP ");
            add_text(&mut t, &status);
            add_text(&mut t, ") at ");
            add_text(&mut t, url);
            Err(FabricRegistryError::NotFound(t))
        },
        Reply::Unreadable(why) => {
            let mut t = owned("Failed to parse ");
            add_text(&mut t, kind);
            add_text(&mut t, " '");
            add_text(&mut t, urn);
            add_text(&mut t, "': ");
            add_text(&mut t, &why);
            Err(FabricRegistryError::ParseError(t))
        },
    }
}

/// The cap that a reply holds, or the error that it stands for.
pub fn read_cap_reply(urn: &str, defver: u32, url: &str, reply: Reply<Cap>) -> (r: Result<
    Cap,
    FabricRegistryError,
>)
    ensures
        match reply {
            Reply::Body(body) => r == Ok::<Cap, FabricRegistryError>(body),
            _ => r is Err && reply_error(
                shape(reply),
                "cap"@,
                "Cap"@,
                urn@,
                defver,
                url@,
                r->Err_0,
            ),
        },
{
    read_reply("cap", "Cap", urn, defver, url, reply)
}

/// The media definition that a reply holds, or the error that it stands for.
pub fn read_media_reply(urn: &str, defver: u32, url: &str, reply: Reply<StoredMediaDef>) -> (r:
    Result<StoredMediaDef, FabricRegistryError>)
    ensures
        match reply {
            Reply::Body(body) => r == Ok::<StoredMediaDef, FabricRegistryError>(body),
            _ => r is Err && reply_error(
                shape(reply),
                "media def"@,
                "Media def"@,
                urn@,
                defver,
                url@,
                r->Err_0,
            ),
        },
{
    read_reply("media def", "Media def", urn, defver, url, reply)
}

/// The snapshot that was asked for as `version`, from the reply to the request
/// at `url`. Where it is not to be had, over the network or in the registry, it
/// is not found; one that cannot be read, or that says another version of
/// itself, is no snapshot.
pub fn read_manifest_reply(version: u32, url: &str, reply: Reply<Manifest>) -> (r: Result<
    Manifest,
    FabricRegistryError,
>)
    ensures
        match reply {
            Reply::Failed(why) => r matches Err(FabricRegistryError::NotFound(text)) && text@
                == "Failed to fetch manifest v"@ + decimal(version as nat) + " at "@ + url@ + ": "@
                + why@,
            Reply::Status(status) => r matches Err(FabricRegistryError::NotFound(text)) && text@
                == "Manifest v"@ + decimal(version as nat) + " not found in registry (HTTP "@
                + status@ + ") at "@ + url@,
            Reply::Unreadable(why) => r matches Err(FabricRegistryError::ParseError(text))
                && text@ == "Failed to parse manifest v"@ + decimal(version as nat) + ": "@ + why@,
            Reply::Body(manifest) => if manifest.version == version {
                r == Ok::<Manifest, FabricRegistryError>(manifest)
            } else {
                r matches Err(FabricRegistryError::ParseError(text)) && text@
                    == "Manifest fetched as v"@ + decimal(version as nat) + " reports version "@
                    + decimal(manifest.version as nat)
            },
        },
{
    match reply {
        Reply::Failed(why) => {
            let mut t = owned("Failed to fetch manifest v");
            add_text(&mut t, &decimal_text(version as u64));
            add_text(&mut t, " at ");
            add_text(&mut t, url);
            add_text(&mut t, ": ");
            add_text(&mut t, &why);
            Err(FabricRegistryError::NotFound(t))
        },
        Reply::Status(status) => {
            let mut t = owned("Manifest v");
            add_text(&mut t, &decimal_text(version as u64));
            add_text(&mut t, " not found in registry (HTTP ");
            add_text(&mut t, &status);
            add_text(&mut t, ") at ");
            add_text(&mut t, url);
            Err(FabricRegistryError::NotFound(t))
        },
        Reply::Unreadable(why) => {
            let mut t = owned("Failed to parse manifest v");
            add_text(&mut t, &decimal_text(version as u64));
            add_text(&mut t, ": ");
            add_text(&mut t, &why);
            Err(FabricRegistryError::ParseError(t))
        },
        Reply::Body(manifest) => match manifest.check_version(version, None) {
            Ok(()) => Ok(manifest),
            Err(e) => Err(e),
        },
    }
}

/// The error for a cap whose media definition could not be fetched.
pub fn media_unavailable(cap_urn: &str, media_urn: &str, why: &FabricRegistryError) -> (r:
    FabricRegistryError)
    ensures
        r matches FabricRegistryError::NotFound(text) && text@ == "cap '"@ + cap_urn@
            + "' references media URN '"@ + media_urn@ + "' which could not be fetched: "@
            + why.message(),
{
    let mut t = owned("cap '");
    add_text(&mut t, cap_urn);
    add_text(&mut t, "' references media URN '");
    add_text(&mut t, media_urn);
    add_text(&mut t, "' which could not be fetched: ");
    add_text(&mut t, &why.to_string());
    FabricRegistryError::NotFound(t)
}

/// The next number of a counter that starts over behind its greatest.
pub open spec fn next_revision(n: u64) -> u64 {
    if n == u64::MAX {
        0
    } else {
        (n + 1) as u64
    }
}

/// A counter after `k` steps.
pub open spec fn revision_after(n: u64, k: nat) -> u64
    decreases k,
{
    if k == 0 {
        n
    } else {
        next_revision(revision_after(n, (k - 1) as nat))
    }
}

/// The first of the references that is not one of `had`.
pub open spec fn first_missing(had: Set<Seq<char>>, refs: Seq<Seq<char>>) -> Option<Seq<char>>
    decreases refs.len(),
{
    if refs.len() == 0 {
        None
    } else if !had.contains(refs[0]) {
        Some(refs[0])
    } else {
        first_missing(had, refs.drop_first())
    }
}

/// A definition is there with `defs` exactly when it was there before or is one
/// of them.
proof fn lemma_with_defs(
    m: Map<Seq<char>, StoredMediaDef>,
    defs: Seq<(String, StoredMediaDef)>,
    urn: Seq<char>,
)
    ensures
        with_defs(m, defs).dom().contains(urn) == (m.dom().contains(urn) || exists|i: int|
            0 <= i < defs.len() && (#[trigger] defs[i]).0@ == urn),
    decreases defs.len(),
{
    if defs.len() > 0 {
        let before = defs.drop_last();
        lemma_with_defs(m, before, urn);
        assert(defs[defs.len() - 1] == defs.last());
        if exists|i: int| 0 <= i < before.len() && (#[trigger] before[i]).0@ == urn {
            let i = choose|i: int| 0 <= i < before.len() && (#[trigger] before[i]).0@ == urn;
            assert(defs[i].0@ == urn);
        }
        if exists|i: int| 0 <= i < defs.len() && (#[trigger] defs[i]).0@ == urn {
            let i = choose|i: int| 0 <= i < defs.len() && (#[trigger] defs[i]).0@ == urn;
            if i < before.len() {
                assert(before[i].0@ == urn);
            }
        }
    }
}

impl FabricRegistry {
    /// No key occurs twice, in the caches, the snapshot and the queue.
    pub open spec fn wf(&self) -> bool {
        &&& self.cached_caps.wf()
        &&& self.cached_media_defs.wf()
        &&& self.extension_index.wf()
        &&& self.aliases.wf()
        &&& self.manifest.wf()
        &&& fetch_keys(self.fetch_queue@).no_duplicates()
    }

    /// A registry over what was read from the caches. In a versioned snapshot
    /// only what belongs to it is kept. The identity cap is always there, at
    /// the version of the snapshot.
    pub fn from_caches(
        config: RegistryConfig,
        manifest_version: u32,
        manifest: Manifest,
        caps: TextMap<Cap>,
        media_defs: TextMap<StoredMediaDef>,
        identity: Cap,
        queue_open: bool,
    ) -> (r: Self)
        requires
            manifest.wf(),
            caps.wf(),
            media_defs.wf(),
        ensures
            r.wf(),
            r.config == config,
            r.manifest_version == manifest_version,
            !r.offline,
            r.queue_open == queue_open,
            r.fetch_queue@.len() == 0,
            r.revision == 0,
            r.aliases@ == Map::<Seq<char>, StoredAlias>::empty(),
            r.manifest.version == manifest.version,
            r.manifest.previous == manifest.previous,
            r.manifest.media == manifest.media,
            ({
                let urn = norm_cap(cap_text(identity.urn@));
                let kept = if manifest_version >= 1 {
                    retained(caps@, cap_pinned(manifest))
                } else {
                    caps@
                };
                &&& r.cached_caps@ == (if kept.dom().contains(urn) {
                    kept
                } else {
                    kept.insert(urn, (Cap { version: manifest_version, ..identity }))
                })
                &&& r.manifest.caps@ == (if manifest_version >= 1 {
                    manifest.caps@.insert(urn, manifest_version)
                } else {
                    manifest.caps@
                })
            }),
            r.cached_media_defs@ == (if manifest_version >= 1 {
                retained(media_defs@, media_pinned(manifest))
            } else {
                media_defs@
            }),
            index_view(r.extension_index) == index_of_defs(r.cached_media_defs.entries@),
    {
        let (cached_caps, cached_media_defs) = if manifest_version >= 1 {
            (retain_caps(caps, &manifest), retain_media(media_defs, &manifest))
        } else {
            (caps, media_defs)
        };
        let extension_index = build_extension_index(&cached_media_defs);
        let mut registry = FabricRegistry {
            cached_caps,
            cached_media_defs,
            extension_index,
            aliases: TextMap::new(),
            config,
            manifest_version,
            manifest,
            offline: false,
            queue_open,
            fetch_queue: Vec::new(),
            revision: 0,
        };
        assert(fetch_keys(registry.fetch_queue@).no_duplicates());
        registry.ensure_identity_cap(identity);
        registry
    }

    /// Puts the identity cap into the cache where it is missing, and into a
    /// versioned snapshot in any case.
    pub fn ensure_identity_cap(&mut self, identity: Cap)
        requires
            old(self).wf(),
        ensures
            final(self).wf(),
            same_setup(*old(self), *final(self)),
            final(self).cached_media_defs == old(self).cached_media_defs,
            final(self).extension_index == old(self).extension_index,
            final(self).fetch_queue == old(self).fetch_queue,
            final(self).revision == old(self).revision,
            final(self).manifest.version == old(self).manifest.version,
            final(self).manifest.previous == old(self).manifest.previous,
            final(self).manifest.media == old(self).manifest.media,
            ({
                let urn = norm_cap(cap_text(identity.urn@));
                let version = old(self).manifest_version;
                &&& final(self).cached_caps@ == (if old(self).cached_caps@.dom().contains(urn) {
                    old(self).cached_caps@
                } else {
                    old(self).cached_caps@.insert(urn, (Cap { version, ..identity }))
                })
                &&& final(self).manifest.caps@ == (if version >= 1 {
                    old(self).manifest.caps@.insert(urn, version)
                } else {
                    old(self).manifest.caps@
                })
            }),
    {
        let mut cap = identity;
        cap.version = self.manifest_version;
        let urn = normalize_cap_urn(&cap.urn_string());
        if self.manifest_version >= 1 {
            self.manifest.caps.insert(urn.clone(), self.manifest_version);
        }
        if !self.cached_caps.contains_key(&urn) {
            self.cached_caps.insert(urn, cap);
        }
    }

    /// The version of the snapshot.
    pub fn manifest_version(&self) -> (r: u32)
        ensures
            r == self.manifest_version,
    {
        self.manifest_version
    }

    /// Where the registry and its schemas are.
    pub fn config(&self) -> (r: &RegistryConfig)
        ensures
            *r == self.config,
    {
        &self.config
    }

    /// Allows or forbids fetching.
    pub fn set_offline(&mut self, offline: bool)
        ensures
            *final(self) == (FabricRegistry { offline, ..*old(self) }),
    {
        self.offline = offline;
    }

    // -- caps ---------------------------------------------------------------

    /// The cached cap with this URN, in whatever form the URN is written.
    pub fn get_cached_cap_in_memory(&self, urn: &str) -> (r: Option<&Cap>)
        requires
            self.wf(),
        ensures
            match r {
                Some(cap) => self.cached_caps@.dom().contains(norm_cap(urn@))
                    && self.cached_caps@[norm_cap(urn@)] == *cap,
                None => !self.cached_caps@.dom().contains(norm_cap(urn@)),
            },
    {
        self.cached_caps.get(&normalize_cap_urn(urn))
    }

    /// The version under which a cap is fetched, by its canonical URN.
    pub fn cap_defver(&self, normalized_urn: &str) -> (r: Result<u32, FabricRegistryError>)
        requires
            self.wf(),
        ensures
            match cap_version(*self, normalized_urn@) {
                Some(v) => r == Ok::<u32, FabricRegistryError>(v),
                None => r matches Err(FabricRegistryError::NotFound(text)) && text@
                    == not_in_manifest_text("cap"@, normalized_urn@, self.manifest_version),
            },
    {
        if self.manifest_version == 0 {
            return Ok(0);
        }
        match self.manifest.caps.get(normalized_urn) {
            Some(v) => Ok(*v),
            None => Err(
                FabricRegistryError::NotFound(
                    not_in_manifest("cap", normalized_urn, self.manifest_version),
                ),
            ),
        }
    }

    /// The version under which a media definition is fetched, by its canonical
    /// URN.
    pub fn media_defver(&self, normalized_urn: &str) -> (r: Result<u32, FabricRegistryError>)
        requires
            self.wf(),
        ensures
            match media_version(*self, normalized_urn@) {
                Some(v) => r == Ok::<u32, FabricRegistryError>(v),
                None => r matches Err(FabricRegistryError::NotFound(text)) && text@
                    == not_in_manifest_text("media def"@, normalized_urn@, self.manifest_version),
            },
    {
        if self.manifest_version == 0 || same_text(normalized_urn, "media:") {
            return Ok(0);
        }
        match self.manifest.media.get(normalized_urn) {
            Some(v) => Ok(*v),
            None => Err(
                FabricRegistryError::NotFound(
                    not_in_manifest("media def", normalized_urn, self.manifest_version),
                ),
            ),
        }
    }

    /// The version under which a cap is fetched, by its URN in any form.
    pub fn cap_defver_for(&self, urn: &str) -> (r: Result<u32, FabricRegistryError>)
        requires
            self.wf(),
        ensures
            match cap_version(*self, norm_cap(urn@)) {
                Some(v) => r == Ok::<u32, FabricRegistryError>(v),
                None => r matches Err(FabricRegistryError::NotFound(text)) && text@
                    == not_in_manifest_text("cap"@, norm_cap(urn@), self.manifest_version),
            },
    {
        self.cap_defver(&normalize_cap_urn(urn))
    }

    /// The version under which a media definition is fetched, by its URN in any
    /// form.
    pub fn media_defver_for(&self, urn: &str) -> (r: Result<u32, FabricRegistryError>)
        requires
            self.wf(),
        ensures
            match media_version(*self, norm_media(urn@)) {
                Some(v) => r == Ok::<u32, FabricRegistryError>(v),
                None => r matches Err(FabricRegistryError::NotFound(text)) && text@
                    == not_in_manifest_text("media def"@, norm_media(urn@), self.manifest_version),
            },
    {
        self.media_defver(&normalize_media_urn(urn))
    }

    /// Where a cap is: cached, to be fetched, or not part of the snapshot.
    pub fn locate_cap(&self, urn: &str) -> (r: Located)
        requires
            self.wf(),
        ensures
            if self.cached_caps@.dom().contains(norm_cap(urn@)) {
                r is Cached
            } else {
                match cap_version(*self, norm_cap(urn@)) {
                    Some(v) => r matches Located::Fetch { urn: u, defver } && u@ == norm_cap(urn@)
                        && defver == v,
                    None => r matches Located::Unknown(FabricRegistryError::NotFound(text))
                        && text@ == not_in_manifest_text(
                        "cap"@,
                        norm_cap(urn@),
                        self.manifest_version,
                    ),
                }
            },
    {
        let normalized = normalize_cap_urn(urn);
        if self.cached_caps.contains_key(&normalized) {
            return Located::Cached;
        }
        match self.cap_defver(&normalized) {
            Ok(defver) => Located::Fetch { urn: normalized, defver },
            Err(e) => Located::Unknown(e),
        }
    }

    /// Where a media definition is: cached, to be fetched, or not part of the
    /// snapshot.
    pub fn locate_media_def(&self, urn: &str) -> (r: Located)
        requires
            self.wf(),
        ensures
            if self.cached_media_defs@.dom().contains(norm_media(urn@)) {
                r is Cached
            } else {
                match media_version(*self, norm_media(urn@)) {
                    Some(v) => r matches Located::Fetch { urn: u, defver } && u@ == norm_media(urn@)
                        && defver == v,
                    None => r matches Located::Unknown(FabricRegistryError::NotFound(text))
                        && text@ == not_in_manifest_text(
                        "media def"@,
                        norm_media(urn@),
                        self.manifest_version,
                    ),
                }
            },
    {
        let normalized = normalize_media_urn(urn);
        if self.cached_media_defs.contains_key(&normalized) {
            return Located::Cached;
        }
        match self.media_defver(&normalized) {
            Ok(defver) => Located::Fetch { urn: normalized, defver },
            Err(e) => Located::Unknown(e),
        }
    }

    /// The request for a cap; refused where fetching is forbidden.
    pub fn cap_fetch_request(&self, normalized_urn: &str, defver: u32) -> (r: Result<
        FetchRequest,
        FabricRegistryError,
    >)
        ensures
            match r {
                Ok(q) => !self.offline && q.url@ == object_url(
                    self.config.registry_base_url@,
                    "caps"@,
                    normalized_urn@,
                    defver,
                ) && texts(q.path@) == object_path("caps"@, normalized_urn@, defver),
                Err(e) => {
                    &&& self.offline
                    &&& e matches FabricRegistryError::NetworkBlocked(text)
                    &&& text@ == "Network access blocked by policy — cannot fetch cap '"@
                        + normalized_urn@ + "'"@
                },
            },
    {
        if self.offline {
            let mut t = owned("Network access blocked by policy — cannot fetch cap '");
            add_text(&mut t, normalized_urn);
            add_text(&mut t, "'");
            return Err(FabricRegistryError::NetworkBlocked(t));
        }
        Ok(cap_url_and_cache_path(&self.config, normalized_urn, defver))
    }

    /// The request for a media definition; refused where fetching is forbidden.
    pub fn media_fetch_request(&self, normalized_urn: &str, defver: u32) -> (r: Result<
        FetchRequest,
        FabricRegistryError,
    >)
        ensures
            match r {
                Ok(q) => !self.offline && q.url@ == object_url(
                    self.config.registry_base_url@,
                    "media"@,
                    normalized_urn@,
                    defver,
                ) && texts(q.path@) == object_path("media"@, normalized_urn@, defver),
                Err(e) => {
                    &&& self.offline
                    &&& e matches FabricRegistryError::NetworkBlocked(text)
                    &&& text@ == "Network access blocked by policy — cannot fetch media def '"@
                        + normalized_urn@ + "'"@
                },
            },
    {
        if self.offline {
            let mut t = owned("Network access blocked by policy — cannot fetch media def '");
            add_text(&mut t, normalized_urn);
            add_text(&mut t, "'");
            return Err(FabricRegistryError::NetworkBlocked(t));
        }
        Ok(media_url_and_cache_path(&self.config, normalized_urn, defver))
    }

    /// Whether a media definition is cached or one of those that were fetched.
    fn has_media(&self, fetched: &Vec<(String, StoredMediaDef)>, urn: &str) -> (r: bool)
        requires
            self.wf(),
        ensures
            r == with_defs(self.cached_media_defs@, fetched@).dom().contains(urn@),
    {
        proof {
            lemma_with_defs(self.cached_media_defs@, fetched@, urn@);
        }
        if self.cached_media_defs.contains_key(urn) {
            return true;
        }
        let mut i: usize = 0;
        while i < fetched.len()
            invariant
                i <= fetched@.len(),
                forall|j: int| 0 <= j < i ==> (#[trigger] fetched@[j]).0@ != urn@,
            decreases fetched@.len() - i,
        {
            if same_text(&fetched[i].0, urn) {
                proof {
                    assert(fetched@[i as int].0@ == urn@);
                    lemma_with_defs(self.cached_media_defs@, fetched@, urn@);
                }
                return true;
            }
            i = i + 1;
        }
        false
    }

    /// The next media definition that a fetched cap still lacks, with its
    /// version, besides what is cached and what was fetched for it; `None` where
    /// it lacks none. A reference that the snapshot does not list is an error:
    /// the cap cannot be cached.
    pub fn next_missing_media(
        &self,
        cap_urn: &str,
        cap: &Cap,
        fetched: &Vec<(String, StoredMediaDef)>,
    ) -> (r: Result<Option<(String, u32)>, FabricRegistryError>)
        requires
            self.wf(),
        ensures
            match first_missing(
                with_defs(self.cached_media_defs@, fetched@).dom(),
                refs_of(*cap),
            ) {
                None => r == Ok::<Option<(String, u32)>, FabricRegistryError>(None),
                Some(m) => match media_version(*self, m) {
                    Some(v) => r matches Ok(Some((u, defver))) && u@ == m && defver == v,
                    None => r matches Err(FabricRegistryError::NotFound(text)) && text@ == "cap '"@
                        + cap_urn@ + "' references media URN '"@ + m
                        + "' which is not in manifest v"@ + decimal(self.manifest_version as nat),
                },
            },
    {
        let ghost had = with_defs(self.cached_media_defs@, fetched@).dom();
        let refs = referenced_media_urns(cap);
        let ghost all = refs_of(*cap);
        let mut i: usize = 0;
        assert(all.subrange(0, all.len() as int) =~= all);
        while i < refs.len()
            invariant
                i <= refs@.len(),
                self.wf(),
                texts(refs@) == all,
                all == refs_of(*cap),
                had == with_defs(self.cached_media_defs@, fetched@).dom(),
                first_missing(had, all) == first_missing(
                    had,
                    all.subrange(i as int, all.len() as int),
                ),
            decreases refs@.len() - i,
        {
            assert(all.subrange(i as int, all.len() as int).drop_first() =~= all.subrange(
                i + 1,
                all.len() as int,
            ));
            assert(all.subrange(i as int, all.len() as int)[0] == refs@[i as int]@) by {
                assert(texts(refs@)[i as int] == refs@[i as int]@);
            }
            if !self.has_media(fetched, &refs[i]) {
                proof {
                    law_references_are_distinct_and_definite(*cap);
                    assert(all.contains(all[i as int]));
                }
                if self.manifest_version == 0 {
                    return Ok(Some((refs[i].clone(), 0)));
                }
                match self.manifest.media.get(&refs[i]) {
                    Some(v) => {
                        return Ok(Some((refs[i].clone(), *v)));
                    },
                    None => {
                        let mut t = owned("cap '");
                        add_text(&mut t, cap_urn);
                        add_text(&mut t, "' references media URN '");
                        add_text(&mut t, &refs[i]);
                        add_text(&mut t, "' which is not in manifest v");
                        add_text(&mut t, &decimal_text(self.manifest_version as u64));
                        return Err(FabricRegistryError::NotFound(t));
                    },
                }
            }
            i = i + 1;
        }
        Ok(None)
    }

    /// Takes a fetched media definition into the cache and the index.
    pub fn admit_media_def(&mut self, normalized_urn: &str, def: StoredMediaDef)
        requires
            old(self).wf(),
        ensures
            final(self).wf(),
            same_setup(*old(self), *final(self)),
            final(self).cached_caps == old(self).cached_caps,
            final(self).manifest == old(self).manifest,
            final(self).fetch_queue == old(self).fetch_queue,
            final(self).cached_media_defs@ == old(self).cached_media_defs@.insert(
                normalized_urn@,
                def,
            ),
            index_view(final(self).extension_index) == index_all(
                index_view(old(self).extension_index),
                texts(def.extensions@),
                def.urn@,
                true,
            ),
            final(self).revision == next_revision(old(self).revision),
    {
        index_extensions(&mut self.extension_index, &def.extensions, &def.urn, true);
        self.cached_media_defs.insert(owned(normalized_urn), def);
        self.publish_cache_revision();
    }

    /// Takes a fetched cap into the cache, with the media definitions that were
    /// fetched for it, where every one that it refers to is then there; else
    /// nothing changes.
    pub fn admit_fetched(
        &mut self,
        urn: &str,
        cap: Cap,
        defs: Vec<(String, StoredMediaDef)>,
    ) -> (r: bool)
        requires
            old(self).wf(),
        ensures
            final(self).wf(),
            r == footprint_in(with_defs(old(self).cached_media_defs@, defs@).dom(), cap),
            !r ==> *final(self) == *old(self),
            r ==> {
                &&& same_setup(*old(self), *final(self))
                &&& final(self).manifest == old(self).manifest
                &&& final(self).fetch_queue == old(self).fetch_queue
                &&& final(self).cached_media_defs@ == with_defs(
                    old(self).cached_media_defs@,
                    defs@,
                )
                &&& index_view(final(self).extension_index) == index_with_defs(
                    index_view(old(self).extension_index),
                    defs@,
                )
                &&& final(self).cached_caps@ == old(self).cached_caps@.insert(urn@, cap)
                &&& final(self).revision == revision_after(old(self).revision, defs@.len() + 1)
                &&& footprint_cached(*final(self), cap)
            },
    {
        let refs = referenced_media_urns(&cap);
        let ghost all = refs_of(cap);
        let ghost had = with_defs(self.cached_media_defs@, defs@).dom();
        let mut i: usize = 0;
        while i < refs.len()
            invariant
                i <= refs@.len(),
                self.wf(),
                *self == *old(self),
                texts(refs@) == all,
                all == refs_of(cap),
                had == with_defs(self.cached_media_defs@, defs@).dom(),
                forall|j: int| 0 <= j < i ==> had.contains(#[trigger] all[j]),
            decreases refs@.len() - i,
        {
            assert(texts(refs@)[i as int] == refs@[i as int]@);
            if !self.has_media(&defs, &refs[i]) {
                assert(!had.contains(all[i as int]));
                return false;
            }
            i = i + 1;
        }
        assert(texts(refs@).len() == refs@.len());
        let ghost given = defs@;
        assert(given.subrange(0, 0) =~= Seq::<(String, StoredMediaDef)>::empty());
        for def in it: defs.into_iter()
            invariant
                it.seq() == given,
                self.wf(),
                same_setup(*old(self), *self),
                self.cached_caps == old(self).cached_caps,
                self.manifest == old(self).manifest,
                self.fetch_queue == old(self).fetch_queue,
                self.cached_media_defs@ == with_defs(
                    old(self).cached_media_defs@,
                    given.subrange(0, it.index() as int),
                ),
                index_view(self.extension_index) == index_with_defs(
                    index_view(old(self).extension_index),
                    given.subrange(0, it.index() as int),
                ),
                self.revision == revision_after(old(self).revision, it.index() as nat),
        {
            proof {
                let n = it.index() as int;
                assert(given.subrange(0, n + 1).drop_last() =~= given.subrange(0, n));
                assert(given.subrange(0, n + 1).last() == given[n]);
            }
            self.admit_media_def(&def.0, def.1);
        }
        assert(given.subrange(0, given.len() as int) =~= given);
        self.cached_caps.insert(owned(urn), cap);
        self.publish_cache_revision();
        true
    }

    /// Counts a change of the caches.
    fn publish_cache_revision(&mut self)
        ensures
            *final(self) == (FabricRegistry {
                revision: next_revision(old(self).revision),
                ..*old(self)
            }),
    {
        self.revision = self.revision.wrapping_add(1);
    }

    /// Puts caps into the cache and the snapshot. A cap without a version takes
    /// that of a versioned snapshot.
    pub fn add_caps_to_cache(&mut self, caps: Vec<Cap>)
        requires
            old(self).wf(),
        ensures
            final(self).wf(),
            same_setup(*old(self), *final(self)),
            final(self).cached_media_defs == old(self).cached_media_defs,
            final(self).extension_index == old(self).extension_index,
            final(self).fetch_queue == old(self).fetch_queue,
            final(self).manifest.version == old(self).manifest.version,
            final(self).manifest.previous == old(self).manifest.previous,
            final(self).manifest.media == old(self).manifest.media,
            final(self).cached_caps@ == caps_added(
                old(self).cached_caps@,
                caps@,
                old(self).manifest_version,
            ),
            final(self).manifest.caps@ == versions_added(
                old(self).manifest.caps@,
                caps@,
                old(self).manifest_version,
            ),
            final(self).revision == (if caps@.len() > 0 {
                next_revision(old(self).revision)
            } else {
                old(self).revision
            }),
    {
        let ghost all = caps@;
        let pin: u32 = self.manifest_version;
        let changed = caps.len() > 0;
        assert(all.subrange(0, 0) =~= Seq::<Cap>::empty());
        for cap in it: caps.into_iter()
            invariant
                it.seq() == all,
                self.wf(),
                pin == self.manifest_version,
                same_setup(*old(self), *self),
                self.cached_media_defs == old(self).cached_media_defs,
                self.extension_index == old(self).extension_index,
                self.fetch_queue == old(self).fetch_queue,
                self.manifest.version == old(self).manifest.version,
                self.manifest.previous == old(self).manifest.previous,
                self.manifest.media == old(self).manifest.media,
                self.revision == old(self).revision,
                self.cached_caps@ == caps_added(
                    old(self).cached_caps@,
                    all.subrange(0, it.index() as int),
                    pin,
                ),
                self.manifest.caps@ == versions_added(
                    old(self).manifest.caps@,
                    all.subrange(0, it.index() as int),
                    pin,
                ),
        {
            proof {
                let n = it.index() as int;
                assert(all.subrange(0, n + 1).drop_last() =~= all.subrange(0, n));
                assert(all.subrange(0, n + 1).last() == cap);
            }
            let mut cap = cap;
            let urn = normalize_cap_urn(&cap.urn_string());
            if cap.version == 0 && pin >= 1 {
                cap.version = pin;
            }
            self.manifest.caps.insert(urn.clone(), cap.version);
            self.cached_caps.insert(urn, cap);
        }
        assert(all.subrange(0, all.len() as int) =~= all);
        if changed {
            self.publish_cache_revision();
        }
    }

    /// Puts a media definition into the cache, the index and the snapshot. One
    /// without a version takes that of a versioned snapshot.
    pub fn insert_cached_media_def_for_test(&mut self, spec: StoredMediaDef)
        requires
            old(self).wf(),
        ensures
            final(self).wf(),
            same_setup(*old(self), *final(self)),
            final(self).cached_caps == old(self).cached_caps,
            final(self).fetch_queue == old(self).fetch_queue,
            final(self).manifest.version == old(self).manifest.version,
            final(self).manifest.previous == old(self).manifest.previous,
            final(self).manifest.caps == old(self).manifest.caps,
            ({
                let urn = norm_media(spec.urn@);
                let version = stamped(spec.version, old(self).manifest_version);
                &&& final(self).cached_media_defs@ == old(self).cached_media_defs@.insert(
                    urn,
                    (StoredMediaDef { version, ..spec }),
                )
                &&& final(self).manifest.media@ == old(self).manifest.media@.insert(urn, version)
            }),
            index_view(final(self).extension_index) == index_all(
                index_view(old(self).extension_index),
                texts(spec.extensions@),
                spec.urn@,
                true,
            ),
            final(self).revision == next_revision(old(self).revision),
    {
        let mut def = spec;
        let urn = normalize_media_urn(&def.urn);
        if def.version == 0 && self.manifest_version >= 1 {
            def.version = self.manifest_version;
        }
        let version: u32 = def.version;
        index_extensions(&mut self.extension_index, &def.extensions, &def.urn, true);
        self.cached_media_defs.insert(urn.clone(), def);
        self.manifest.media.insert(urn, version);
        self.publish_cache_revision();
    }

    // -- media definitions ----------------------------------------------------

    /// The cached media definition with this URN, in whatever form the URN is
    /// written.
    pub fn get_cached_media_def_in_memory(&self, urn: &str) -> (r: Option<&StoredMediaDef>)
        requires
            self.wf(),
        ensures
            match r {
                Some(def) => self.cached_media_defs@.dom().contains(norm_media(urn@))
                    && self.cached_media_defs@[norm_media(urn@)] == *def,
                None => !self.cached_media_defs@.dom().contains(norm_media(urn@)),
            },
    {
        self.cached_media_defs.get(&normalize_media_urn(urn))
    }

    /// Whether files can hold this media: its cached definition has an
    /// extension.
    pub fn is_bookend(&self, urn: &str) -> (r: bool)
        requires
            self.wf(),
        ensures
            r == (self.cached_media_defs@.dom().contains(norm_media(urn@))
                && self.cached_media_defs@[norm_media(urn@)].extensions@.len() > 0),
    {
        match self.get_cached_media_def_in_memory(urn) {
            Some(def) => def.extensions.len() > 0,
            None => false,
        }
    }

    /// The URNs of all cached media that files can hold; a definition whose URN
    /// is no media URN is left out.
    pub fn bookend_urns(&self) -> (r: Vec<MediaUrn>)
        ensures
            r@.len() == bookends(self.cached_media_defs.entries@).len(),
            forall|i: int|
                0 <= i < r@.len() ==> (#[trigger] r@[i])@ == bookends(
                    self.cached_media_defs.entries@,
                )[i] && r@[i].wf(),
    {
        let mut out: Vec<MediaUrn> = Vec::new();
        let ghost all = self.cached_media_defs.entries@;
        let mut i: usize = 0;
        assert(all.subrange(0, 0) =~= Seq::<(String, StoredMediaDef)>::empty());
        while i < self.cached_media_defs.entries.len()
            invariant
                i <= all.len(),
                all == self.cached_media_defs.entries@,
                out@.len() == bookends(all.subrange(0, i as int)).len(),
                forall|j: int|
                    0 <= j < out@.len() ==> (#[trigger] out@[j])@ == bookends(
                        all.subrange(0, i as int),
                    )[j] && out@[j].wf(),
            decreases all.len() - i,
        {
            assert(all.subrange(0, i + 1).drop_last() =~= all.subrange(0, i as int));
            let def = &self.cached_media_defs.entries[i].1;
            if def.extensions.len() > 0 {
                match MediaUrn::from_string(&def.urn) {
                    Ok(urn) => {
                        out.push(urn);
                    },
                    Err(_) => {},
                }
            }
            i = i + 1;
        }
        assert(all.subrange(0, all.len() as int) =~= all);
        out
    }

    /// The media URNs of an extension, in whatever case it is written.
    pub fn media_urns_for_extension(&self, extension: &str) -> (r: Result<
        Vec<String>,
        FabricRegistryError,
    >)
        requires
            self.wf(),
        ensures
            if index_view(self.extension_index).dom().contains(lowercase(extension@)) {
                r is Ok && texts(r->Ok_0@) == index_view(self.extension_index)[lowercase(
                    extension@,
                )]
            } else {
                r matches Err(FabricRegistryError::ExtensionNotFound(text)) && text@
                    == "No media def registered for extension '"@ + extension@ + "'"@
            },
    {
        match self.extension_index.get(&to_lowercase(extension)) {
            Some(urns) => Ok(clone_texts(urns)),
            None => {
                let mut t = owned("No media def registered for extension '");
                add_text(&mut t, extension);
                add_text(&mut t, "'");
                Err(FabricRegistryError::ExtensionNotFound(t))
            },
        }
    }

    /// All extensions with their media URNs.
    pub fn get_extension_mappings(&self) -> (r: Vec<(String, Vec<String>)>)
        ensures
            r@.len() == self.extension_index.entries@.len(),
            forall|i: int|
                0 <= i < r@.len() ==> (#[trigger] r@[i]).0@
                    == self.extension_index.entries@[i].0@ && texts(r@[i].1@) == texts(
                    self.extension_index.entries@[i].1@,
                ),
    {
        let mut out: Vec<(String, Vec<String>)> = Vec::new();
        let mut i: usize = 0;
        while i < self.extension_index.entries.len()
            invariant
                i <= self.extension_index.entries@.len(),
                out@.len() == i,
                forall|j: int|
                    0 <= j < i ==> (#[trigger] out@[j]).0@ == self.extension_index.entries@[j].0@
                        && texts(out@[j].1@) == texts(self.extension_index.entries@[j].1@),
            decreases self.extension_index.entries@.len() - i,
        {
            let entry = &self.extension_index.entries[i];
            out.push((entry.0.clone(), clone_texts(&entry.1)));
            i = i + 1;
        }
        out
    }

    /// Empties the caches and the index; the snapshot stays.
    pub fn clear_cache(&mut self)
        requires
            old(self).wf(),
        ensures
            final(self).wf(),
            same_setup(*old(self), *final(self)),
            final(self).manifest == old(self).manifest,
            final(self).fetch_queue == old(self).fetch_queue,
            final(self).revision == old(self).revision,
            final(self).cached_caps@ == Map::<Seq<char>, Cap>::empty(),
            final(self).cached_media_defs@ == Map::<Seq<char>, StoredMediaDef>::empty(),
            final(self).extension_index@ == Map::<Seq<char>, Vec<String>>::empty(),
    {
        self.cached_caps.clear();
        self.cached_media_defs.clear();
        self.extension_index.clear();
    }

    // -- background fetches ---------------------------------------------------

    /// Where a key stands in the queue.
    fn queue_position(&self, key: &FetchKey) -> (r: Option<usize>)
        ensures
            match r {
                Some(i) => i < self.fetch_queue@.len() && fetch_keys(self.fetch_queue@)[i as int]
                    == fetch_key(*key),
                None => !fetch_keys(self.fetch_queue@).contains(fetch_key(*key)),
            },
    {
        let mut i: usize = 0;
        while i < self.fetch_queue.len()
            invariant
                i <= self.fetch_queue@.len(),
                forall|j: int|
                    0 <= j < i ==> #[trigger] fetch_keys(self.fetch_queue@)[j] != fetch_key(*key),
            decreases self.fetch_queue@.len() - i,
        {
            if same_key(&self.fetch_queue[i], key) {
                return Some(i);
            }
            i = i + 1;
        }
        None
    }

    /// Queues a definition, unless it waits already or nothing takes it off.
    pub fn enqueue_for_background_fetch(&mut self, key: FetchKey) -> (r: bool)
        requires
            old(self).wf(),
        ensures
            final(self).wf(),
            r == (old(self).queue_open && !fetch_keys(old(self).fetch_queue@).contains(
                fetch_key(key),
            )),
            *final(self) == (FabricRegistry {
                fetch_queue: final(self).fetch_queue,
                ..*old(self)
            }),
            final(self).fetch_queue@ == (if r {
                old(self).fetch_queue@.push(key)
            } else {
                old(self).fetch_queue@
            }),
    {
        if !self.queue_open || self.queue_position(&key).is_some() {
            return false;
        }
        let ghost before = fetch_keys(self.fetch_queue@);
        let ghost added = fetch_key(key);
        self.fetch_queue.push(key);
        proof {
            let after = fetch_keys(self.fetch_queue@);
            assert(after =~= before.push(added));
        }
        true
    }

    /// Queues a cap that is to be had in the cache, where the snapshot lists it.
    pub fn request_cap_cache_hydration(&mut self, urn: &str) -> (r: bool)
        requires
            old(self).wf(),
        ensures
            final(self).wf(),
            r == (old(self).queue_open && cap_version(*old(self), norm_cap(urn@)) is Some
                && !fetch_keys(old(self).fetch_queue@).contains(
                (true, norm_cap(urn@), cap_version(*old(self), norm_cap(urn@))->0),
            )),
            *final(self) == (FabricRegistry {
                fetch_queue: final(self).fetch_queue,
                ..*old(self)
            }),
            !r ==> final(self).fetch_queue@ == old(self).fetch_queue@,
            r ==> fetch_keys(final(self).fetch_queue@) == fetch_keys(old(self).fetch_queue@).push(
                (true, norm_cap(urn@), cap_version(*old(self), norm_cap(urn@))->0),
            ),
    {
        let normalized = normalize_cap_urn(urn);
        match self.cap_defver(&normalized) {
            Ok(defver) => {
                let ghost before = fetch_keys(self.fetch_queue@);
                let key = FetchKey::Cap { urn: normalized, defver };
                let ghost added = fetch_key(key);
                let r = self.enqueue_for_background_fetch(key);
                assert(r ==> fetch_keys(self.fetch_queue@) =~= before.push(added));
                r
            },
            Err(_) => false,
        }
    }

    /// Whether a queued definition is still to be fetched: it is not cached.
    pub fn queued_fetch_needed(&self, key: &FetchKey) -> (r: bool)
        requires
            self.wf(),
        ensures
            r == (match *key {
                FetchKey::Cap { urn, .. } => !self.cached_caps@.dom().contains(urn@),
                FetchKey::Media { urn, .. } => !self.cached_media_defs@.dom().contains(urn@),
            }),
    {
        match key {
            FetchKey::Cap { urn, .. } => !self.cached_caps.contains_key(urn),
            FetchKey::Media { urn, .. } => !self.cached_media_defs.contains_key(urn),
        }
    }

    /// Takes a definition off the queue, whether or not it was fetched, so that
    /// it can be queued again.
    pub fn finish_queued_fetch(&mut self, key: &FetchKey)
        requires
            old(self).wf(),
        ensures
            final(self).wf(),
            *final(self) == (FabricRegistry {
                fetch_queue: final(self).fetch_queue,
                ..*old(self)
            }),
            !fetch_keys(final(self).fetch_queue@).contains(fetch_key(*key)),
            fetch_keys(old(self).fetch_queue@).contains(fetch_key(*key)) ==> exists|i: int|
                {
                    &&& 0 <= i < old(self).fetch_queue@.len()
                    &&& #[trigger] fetch_keys(old(self).fetch_queue@)[i] == fetch_key(*key)
                    &&& final(self).fetch_queue@ == old(self).fetch_queue@.remove(i)
                },
            !fetch_keys(old(self).fetch_queue@).contains(fetch_key(*key))
                ==> final(self).fetch_queue@ == old(self).fetch_queue@,
    {
        match self.queue_position(key) {
            Some(i) => {
                let ghost before = fetch_keys(self.fetch_queue@);
                self.fetch_queue.remove(i);
                proof {
                    let after = fetch_keys(self.fetch_queue@);
                    assert(after =~= before.remove(i as int));
                    assert(before[i as int] == fetch_key(*key));
                    assert forall|j: int| 0 <= j < after.len() implies after[j] != fetch_key(
                        *key,
                    ) by {
                        if j < i {
                            assert(after[j] == before[j]);
                        } else {
                            assert(after[j] == before[j + 1]);
                        }
                    }
                    assert forall|a: int, b: int|
                        0 <= a < after.len() && 0 <= b < after.len() && a != b implies after[a]
                        != after[b] by {
                        let c = if a < i {
                            a
                        } else {
                            a + 1
                        };
                        let d = if b < i {
                            b
                        } else {
                            b + 1
                        };
                        assert(before[c] != before[d]);
                    }
                }
            },
            None => {},
        }
    }

    // -- aliases --------------------------------------------------------------

    /// Puts an alias into the cache, under its name.
    pub fn insert_cached_alias_for_test(&mut self, alias: StoredAlias)
        requires
            old(self).wf(),
        ensures
            final(self).wf(),
            *final(self) == (FabricRegistry { aliases: final(self).aliases, ..*old(self) }),
            final(self).aliases@ == old(self).aliases@.insert(alias.name@, alias),
    {
        self.aliases.insert(alias.name.clone(), alias);
    }

    /// The alias that a cap is shown under: the shortest of its aliases, and of
    /// several that are equally short the first in the order of the names.
    pub fn display_alias_for_urn(&self, urn: &str) -> (r: Option<String>)
        ensures
            opt_text(r) == display_alias(self.aliases.entries@, urn@),
    {
        let mut best: Option<usize> = None;
        let mut i: usize = 0;
        let ghost all = self.aliases.entries@;
        assert(all.subrange(0, 0) =~= Seq::<(String, StoredAlias)>::empty());
        while i < self.aliases.entries.len()
            invariant
                i <= all.len(),
                all == self.aliases.entries@,
                match best {
                    Some(b) => b < i && display_alias(all.subrange(0, i as int), urn@) == Some(
                        all[b as int].0@,
                    ),
                    None => display_alias(all.subrange(0, i as int), urn@) is None,
                },
            decreases all.len() - i,
        {
            assert(all.subrange(0, i + 1).drop_last() =~= all.subrange(0, i as int));
            let entry = &self.aliases.entries[i];
            if same_text(&normalize_cap_urn(&entry.1.target), urn) {
                match best {
                    Some(b) => {
                        if shorter_name(&entry.0, &self.aliases.entries[b].0) {
                            best = Some(i);
                        }
                    },
                    None => {
                        best = Some(i);
                    },
                }
            }
            i = i + 1;
        }
        assert(all.subrange(0, all.len() as int) =~= all);
        match best {
            Some(b) => Some(self.aliases.entries[b].0.clone()),
            None => None,
        }
    }
}

/// The alias at `i` stands for the cap.
pub open spec fn names_cap(entries: Seq<(String, StoredAlias)>, urn: Seq<char>, i: int) -> bool {
    0 <= i < entries.len() && norm_cap(entries[i].1.target@) == urn
}

/// `a` is shown rather than `b`: it is shorter, or equally short and first.
pub open spec fn shorter(a: Seq<char>, b: Seq<char>) -> bool {
    a.len() < b.len() || (a.len() == b.len() && less(a, b))
}

/// The alias that a cap is shown under.
pub open spec fn display_alias(entries: Seq<(String, StoredAlias)>, urn: Seq<char>) -> Option<
    Seq<char>,
>
    decreases entries.len(),
{
    if entries.len() == 0 {
        None
    } else {
        let before = display_alias(entries.drop_last(), urn);
        let name = entries.last().0@;
        if norm_cap(entries.last().1.target@) == urn {
            match before {
                Some(b) => if shorter(name, b) {
                    Some(name)
                } else {
                    Some(b)
                },
                None => Some(name),
            }
        } else {
            before
        }
    }
}

/// Law: a cap is shown under one of its aliases wherever it has one, and none
/// of its aliases is to be shown rather than that.
pub proof fn law_shown_alias_is_the_best(entries: Seq<(String, StoredAlias)>, urn: Seq<char>)
    ensures
        match display_alias(entries, urn) {
            Some(name) => {
                &&& exists|i: int| #[trigger] names_cap(entries, urn, i) && entries[i].0@ == name
                &&& forall|j: int|
                    #[trigger] names_cap(entries, urn, j) ==> !shorter(entries[j].0@, name)
            },
            None => forall|i: int| !#[trigger] names_cap(entries, urn, i),
        },
    decreases entries.len(),
{
    if entries.len() > 0 {
        let front = entries.drop_last();
        let last = entries.len() - 1;
        law_shown_alias_is_the_best(front, urn);
        assert forall|i: int| 0 <= i < last implies #[trigger] names_cap(entries, urn, i)
            == names_cap(front, urn, i) && entries[i] == front[i] by {
        }
        match display_alias(entries, urn) {
            Some(name) => {
                let name_last = entries[last].0@;
                lemma_shorter(name_last, name_last, name_last);
                if names_cap(entries, urn, last) && name == name_last {
                    if let Some(b) = display_alias(front, urn) {
                        if shorter(name_last, b) {
                            assert forall|j: int| #[trigger] names_cap(entries, urn, j) implies !shorter(
                                entries[j].0@,
                                name,
                            ) by {
                                if j < last {
                                    assert(names_cap(front, urn, j));
                                    lemma_shorter(entries[j].0@, name, b);
                                }
                            }
                        } else {
                            let k = choose|k: int|
                                #[trigger] names_cap(front, urn, k) && front[k].0@ == b;
                            assert(names_cap(entries, urn, k) && entries[k].0@ == name);
                            assert forall|j: int| #[trigger] names_cap(entries, urn, j) implies !shorter(
                                entries[j].0@,
                                name,
                            ) by {
                                if j < last {
                                    assert(names_cap(front, urn, j));
                                }
                            }
                        }
                    } else {
                        assert forall|j: int| #[trigger] names_cap(entries, urn, j) implies !shorter(
                            entries[j].0@,
                            name,
                        ) by {
                            if j < last {
                                assert(names_cap(front, urn, j));
                            }
                        }
                    }
                } else {
                    let k = choose|k: int|
                        #[trigger] names_cap(front, urn, k) && front[k].0@ == name;
                    assert(names_cap(entries, urn, k) && entries[k].0@ == name);
                    assert forall|j: int| #[trigger] names_cap(entries, urn, j) implies !shorter(
                        entries[j].0@,
                        name,
                    ) by {
                        if j < last {
                            assert(names_cap(front, urn, j));
                        }
                    }
                }
            },
            None => {
                assert forall|i: int| !#[trigger] names_cap(entries, urn, i) by {
                    if names_cap(entries, urn, i) && i < last {
                        assert(names_cap(front, urn, i));
                    }
                }
            },
        }
    }
}

/// Whether `a` is shown rather than `b`.
fn shorter_name(a: &str, b: &str) -> (r: bool)
    ensures
        r == shorter(a@, b@),
{
    let x: usize = crate::text::chars_of(a).len();
    let y: usize = crate::text::chars_of(b).len();
    x < y || (x == y && text_less(a, b))
}

/// What is not shown rather than `c` is not shown rather than `b`, where `b` is
/// shown rather than `c`.
proof fn lemma_shorter(a: Seq<char>, b: Seq<char>, c: Seq<char>)
    ensures
        !shorter(a, a),
        shorter(b, c) && !shorter(a, c) ==> !shorter(a, b),
{
    crate::text::lemma_less_strict(a, a);
    if shorter(b, c) && shorter(a, b) && a.len() == b.len() && b.len() == c.len() {
        crate::text::lemma_less_trans(a, b, c);
    }
}

/// A cap's or definition's version in a snapshot: its own, or that of a
/// versioned snapshot where it has none.
pub open spec fn stamped(version: u32, pin: u32) -> u32 {
    if version == 0 && pin >= 1 {
        pin
    } else {
        version
    }
}

/// The cache with these caps, each under its canonical URN.
pub open spec fn caps_added(m: Map<Seq<char>, Cap>, caps: Seq<Cap>, pin: u32) -> Map<
    Seq<char>,
    Cap,
>
    decreases caps.len(),
{
    if caps.len() == 0 {
        m
    } else {
        let cap = caps.last();
        caps_added(m, caps.drop_last(), pin).insert(
            norm_cap(cap_text(cap.urn@)),
            (Cap { version: stamped(cap.version, pin), ..cap }),
        )
    }
}

/// The snapshot's caps with the versions of these.
pub open spec fn versions_added(m: Map<Seq<char>, u32>, caps: Seq<Cap>, pin: u32) -> Map<
    Seq<char>,
    u32,
>
    decreases caps.len(),
{
    if caps.len() == 0 {
        m
    } else {
        let cap = caps.last();
        versions_added(m, caps.drop_last(), pin).insert(
            norm_cap(cap_text(cap.urn@)),
            stamped(cap.version, pin),
        )
    }
}

/// The media URNs of the definitions that have an extension.
pub open spec fn bookends(defs: Seq<(String, StoredMediaDef)>) -> Seq<Seq<TagView>>
    decreases defs.len(),
{
    if defs.len() == 0 {
        Seq::empty()
    } else {
        let before = bookends(defs.drop_last());
        let def = defs.last().1;
        match media_parse(def.urn@) {
            Some(urn) if def.extensions@.len() > 0 => before.push(urn),
            _ => before,
        }
    }
}

/// The message for a definition that is not part of the snapshot.
fn not_in_manifest(kind: &str, urn: &str, version: u32) -> (r: String)
    ensures
        r@ == not_in_manifest_text(kind@, urn@, version),
{
    let mut t = owned(kind);
    add_text(&mut t, " '");
    add_text(&mut t, urn);
    add_text(&mut t, "' is not part of manifest v");
    add_text(&mut t, &decimal_text(version as u64));
    t
}

/// An optional text as `{:?}` shows it.
pub uninterp spec fn shown_option(o: Option<Seq<char>>) -> Seq<char>;

/// `format!("{:?}", o)` for an optional text: a function of the text alone.
#[verifier::external_body]
pub(crate) fn show_option(o: &Option<String>) -> (r: String)
    ensures
        r@ == shown_option(opt_text(*o)),
{
    format!("{:?}", o)
}

/// Checks a local cap against the canonical one: the command first, then the
/// media URN of the standard input.
pub fn validate_cap(cap: &Cap, canonical_cap: &Cap) -> (r: Result<(), FabricRegistryError>)
    ensures
        if cap.command@ != canonical_cap.command@ {
            r matches Err(FabricRegistryError::ValidationError(text)) && text@
                == "Command mismatch. Local: "@ + cap.command@ + ", Canonical: "@
                + canonical_cap.command@
        } else if stdin_of(cap.args@) != stdin_of(canonical_cap.args@) {
            r matches Err(FabricRegistryError::ValidationError(text)) && text@
                == "stdin mismatch. Local: "@ + shown_option(stdin_of(cap.args@))
                + ", Canonical: "@ + shown_option(stdin_of(canonical_cap.args@))
        } else {
            r is Ok
        },
{
    if !same_text(&cap.command, &canonical_cap.command) {
        let mut t = owned("Command mismatch. Local: ");
        add_text(&mut t, &cap.command);
        add_text(&mut t, ", Canonical: ");
        add_text(&mut t, &canonical_cap.command);
        return Err(FabricRegistryError::ValidationError(t));
    }
    let local = cap.get_stdin_media_urn();
    let canonical = canonical_cap.get_stdin_media_urn();
    if !same_opt(&local, &canonical) {
        let mut t = owned("stdin mismatch. Local: ");
        add_text(&mut t, &show_option(&local));
        add_text(&mut t, ", Canonical: ");
        add_text(&mut t, &show_option(&canonical));
        return Err(FabricRegistryError::ValidationError(t));
    }
    Ok(())
}

// ---------------------------------------------------------------------------
// Laws of the caches
// ---------------------------------------------------------------------------

/// Some reference is missing exactly where not all are there.
proof fn lemma_first_missing(had: Set<Seq<char>>, refs: Seq<Seq<char>>)
    ensures
        match first_missing(had, refs) {
            Some(m) => refs.contains(m) && !had.contains(m),
            None => forall|i: int| 0 <= i < refs.len() ==> had.contains(#[trigger] refs[i]),
        },
    decreases refs.len(),
{
    if refs.len() > 0 {
        if !had.contains(refs[0]) {
            assert(refs.contains(refs[0]));
        } else {
            let tail = refs.drop_first();
            lemma_first_missing(had, tail);
            match first_missing(had, tail) {
                Some(m) => {
                    let i = tail.index_of(m);
                    assert(refs[i + 1] == m);
                },
                None => {
                    assert forall|i: int| 0 <= i < refs.len() implies had.contains(
                        #[trigger] refs[i],
                    ) by {
                        if i > 0 {
                            assert(tail[i - 1] == refs[i]);
                        }
                    }
                },
            }
        }
    }
}

/// Law: a cap is admitted exactly when nothing is missing besides what is cached
/// and what was fetched for it; so every cap that was fetched into the cache has
/// all its media definitions in the cache.
pub proof fn law_admitted_cap_has_its_media(
    reg: FabricRegistry,
    fetched: Seq<(String, StoredMediaDef)>,
    cap: Cap,
)
    ensures
        footprint_in(with_defs(reg.cached_media_defs@, fetched).dom(), cap) == (first_missing(
            with_defs(reg.cached_media_defs@, fetched).dom(),
            refs_of(cap),
        ) is None),
{
    let had = with_defs(reg.cached_media_defs@, fetched).dom();
    lemma_first_missing(had, refs_of(cap));
    if footprint_in(had, cap) {
        if let Some(m) = first_missing(had, refs_of(cap)) {
            let i = refs_of(cap).index_of(m);
            assert(had.contains(refs_of(cap)[i]));
        }
    }
}

/// How many of the references are not one of `had`.
pub open spec fn missing_count(had: Set<Seq<char>>, refs: Seq<Seq<char>>) -> nat
    decreases refs.len(),
{
    if refs.len() == 0 {
        0
    } else {
        missing_count(had, refs.drop_last()) + if had.contains(refs.last()) {
            0nat
        } else {
            1nat
        }
    }
}

proof fn lemma_missing_count(had: Set<Seq<char>>, refs: Seq<Seq<char>>, urn: Seq<char>)
    ensures
        missing_count(had.insert(urn), refs) <= missing_count(had, refs),
        refs.contains(urn) && !had.contains(urn) ==> missing_count(had.insert(urn), refs)
            < missing_count(had, refs),
    decreases refs.len(),
{
    if refs.len() > 0 {
        lemma_missing_count(had, refs.drop_last(), urn);
        if refs.contains(urn) && refs.last() != urn {
            let i = refs.index_of(urn);
            assert(refs.drop_last()[i] == urn);
        }
    }
}

/// Law: every media definition that is fetched for a cap leaves the cap with
/// fewer missing ones, so that the fetch of a cap comes to an end.
pub proof fn law_cap_fetch_makes_progress(
    reg: FabricRegistry,
    fetched: Seq<(String, StoredMediaDef)>,
    cap: Cap,
    urn: String,
    def: StoredMediaDef,
)
    requires
        first_missing(with_defs(reg.cached_media_defs@, fetched).dom(), refs_of(cap)) == Some(
            urn@,
        ),
    ensures
        missing_count(
            with_defs(reg.cached_media_defs@, fetched.push((urn, def))).dom(),
            refs_of(cap),
        ) < missing_count(with_defs(reg.cached_media_defs@, fetched).dom(), refs_of(cap)),
{
    let had = with_defs(reg.cached_media_defs@, fetched).dom();
    lemma_first_missing(had, refs_of(cap));
    assert(fetched.push((urn, def)).drop_last() =~= fetched);
    assert(with_defs(reg.cached_media_defs@, fetched.push((urn, def))).dom() =~= had.insert(urn@));
    lemma_missing_count(had, refs_of(cap), urn@);
}

/// Law: a cap that has all its media definitions keeps them when others come in.
pub proof fn law_footprint_stays_cached(
    before: FabricRegistry,
    after: FabricRegistry,
    cap: Cap,
    defs: Seq<(String, StoredMediaDef)>,
)
    requires
        footprint_cached(before, cap),
        after.cached_media_defs@ == with_defs(before.cached_media_defs@, defs),
    ensures
        footprint_cached(after, cap),
{
    assert forall|i: int|
        0 <= i < refs_of(cap).len() implies after.cached_media_defs@.dom().contains(
        #[trigger] refs_of(cap)[i],
    ) by {
        assert(before.cached_media_defs@.dom().contains(refs_of(cap)[i]));
        lemma_with_defs(before.cached_media_defs@, defs, refs_of(cap)[i]);
    }
}

// ---------------------------------------------------------------------------
// What belongs to a snapshot
// ---------------------------------------------------------------------------

/// Law: a URN and its canonical form are read as the same tags; a text that is no
/// URN stays as it is.
pub proof fn law_canonical_form_means_the_same(s: Seq<char>)
    ensures
        cap_parse(norm_cap(s)) == cap_parse(s),
        media_parse(norm_media(s)) == media_parse(s),
        cap_parse(s) is None ==> norm_cap(s) == s,
        media_parse(s) is None ==> norm_media(s) == s,
{
    if cap_parse(s) is Some {
        crate::urn::law_cap_text_reads_back(s);
    }
    if media_parse(s) is Some {
        crate::urn::law_media_text_reads_back(s);
    }
}

/// Law: in a snapshot with a version a definition is fetched under the version
/// that the snapshot lists for it, and not at all where it lists none. Without a
/// version everything is fetched without one, and so is always the URN that
/// stands for any media.
pub proof fn law_fetched_version_is_the_listed_one(reg: FabricRegistry, urn: Seq<char>)
    ensures
        reg.manifest_version == 0 ==> cap_version(reg, urn) == Some(0u32) && media_version(reg, urn)
            == Some(0u32),
        reg.manifest_version != 0 ==> {
            &&& cap_version(reg, urn) is Some <==> reg.manifest.caps@.dom().contains(urn)
            &&& reg.manifest.caps@.dom().contains(urn) ==> cap_version(reg, urn) == Some(
                reg.manifest.caps@[urn],
            )
            &&& urn != "media:"@ ==> (media_version(reg, urn) is Some
                <==> reg.manifest.media@.dom().contains(urn))
            &&& urn != "media:"@ && reg.manifest.media@.dom().contains(urn) ==> media_version(
                reg,
                urn,
            ) == Some(reg.manifest.media@[urn])
        },
        media_version(reg, "media:"@) == Some(0u32),
{
}

/// Law: of what is cached exactly that stays which has the version that the
/// snapshot lists for it, or none where it lists none; and it stays as it is.
pub proof fn law_what_is_not_of_the_snapshot_leaves(
    caps: Map<Seq<char>, Cap>,
    defs: Map<Seq<char>, StoredMediaDef>,
    manifest: Manifest,
    urn: Seq<char>,
)
    ensures
        ({
            let kept = retained(caps, cap_pinned(manifest));
            let listed = manifest.caps@.dom().contains(urn);
            &&& kept.dom().contains(urn) <==> {
                &&& caps.dom().contains(urn)
                &&& listed ==> caps[urn].version == manifest.caps@[urn]
                &&& !listed ==> caps[urn].version == 0
            }
            &&& kept.dom().contains(urn) ==> kept[urn] == caps[urn]
        }),
        ({
            let kept = retained(defs, media_pinned(manifest));
            let listed = manifest.media@.dom().contains(urn);
            &&& kept.dom().contains(urn) <==> {
                &&& defs.dom().contains(urn)
                &&& listed ==> defs[urn].version == manifest.media@[urn]
                &&& !listed ==> defs[urn].version == 0
            }
            &&& kept.dom().contains(urn) ==> kept[urn] == defs[urn]
        }),
{
}

/// Law: a cap that is added is found under its canonical URN, and listed with its
/// own version; one without a version has that of the snapshot. What was there
/// under other URNs stays.
pub proof fn law_added_cap_is_found_with_its_version(
    m: Map<Seq<char>, Cap>,
    listed: Map<Seq<char>, u32>,
    caps: Seq<Cap>,
    cap: Cap,
    pin: u32,
    other: Seq<char>,
)
    requires
        other != norm_cap(cap_text(cap.urn@)),
    ensures
        ({
            let urn = norm_cap(cap_text(cap.urn@));
            let after = caps_added(m, caps.push(cap), pin);
            let versions = versions_added(listed, caps.push(cap), pin);
            &&& after.dom().contains(urn)
            &&& after[urn].urn == cap.urn && after[urn].title == cap.title && after[urn].args
                == cap.args && after[urn].output == cap.output
            &&& cap.version != 0 ==> after[urn].version == cap.version
            &&& cap.version == 0 && pin >= 1 ==> after[urn].version == pin
            &&& cap.version == 0 && pin == 0 ==> after[urn].version == 0
            &&& versions.dom().contains(urn)
            &&& versions[urn] == after[urn].version
            &&& after.dom().contains(other) == caps_added(m, caps, pin).dom().contains(other)
            &&& after[other] == caps_added(m, caps, pin)[other]
            &&& versions.dom().contains(other) == versions_added(listed, caps, pin).dom().contains(
                other,
            )
            &&& versions[other] == versions_added(listed, caps, pin)[other]
        }),
        caps_added(m, Seq::empty(), pin) == m,
        versions_added(listed, Seq::empty(), pin) == listed,
{
    assert(caps.push(cap).drop_last() =~= caps);
}

// ---------------------------------------------------------------------------
// What a cap refers to
// ---------------------------------------------------------------------------

proof fn lemma_add_ref_exactly(v: Seq<Seq<char>>, s: Seq<char>, x: Seq<char>)
    ensures
        add_ref(v, s).contains(x) <==> v.contains(x) || (x == norm_media(s) && x != "media:"@),
{
    lemma_add_ref(v, s);
    let w = add_ref(v, s);
    if w.contains(x) && !v.contains(x) {
        let i = w.index_of(x);
        if i < v.len() {
            assert(v[i] == x);
        }
    }
}

/// One of the sources is the standard input with this media URN.
pub open spec fn feeds_from(sources: Seq<ArgSource>, x: Seq<char>) -> bool {
    exists|i: int|
        0 <= i < sources.len() && ((#[trigger] sources[i]) matches ArgSource::Stdin { stdin }
            && norm_media(stdin@) == x)
}

proof fn lemma_sources_exactly(v: Seq<Seq<char>>, sources: Seq<ArgSource>, x: Seq<char>)
    ensures
        refs_of_sources(v, sources).contains(x) <==> v.contains(x) || (x != "media:"@
            && feeds_from(sources, x)),
    decreases sources.len(),
{
    if sources.len() > 0 {
        let rest = sources.drop_last();
        lemma_sources_exactly(v, rest, x);
        assert(sources[sources.len() - 1] == sources.last());
        if feeds_from(rest, x) {
            let i = choose|i: int|
                0 <= i < rest.len() && ((#[trigger] rest[i]) matches ArgSource::Stdin { stdin }
                    && norm_media(stdin@) == x);
            assert(sources[i] == rest[i]);
        }
        if feeds_from(sources, x) {
            let i = choose|i: int|
                0 <= i < sources.len() && ((#[trigger] sources[i]) matches ArgSource::Stdin {
                    stdin,
                } && norm_media(stdin@) == x);
            if i < rest.len() {
                assert(rest[i] == sources[i]);
            }
        }
        if let ArgSource::Stdin { stdin } = sources.last() {
            lemma_add_ref_exactly(refs_of_sources(v, rest), stdin@, x);
        }
    }
}

/// The argument takes the media URN, itself or from the standard input.
pub open spec fn takes_media(arg: CapArg, x: Seq<char>) -> bool {
    norm_media(arg.media_urn@) == x || feeds_from(arg.sources@, x)
}

proof fn lemma_args_exactly(v: Seq<Seq<char>>, args: Seq<CapArg>, x: Seq<char>)
    ensures
        refs_of_args(v, args).contains(x) <==> v.contains(x) || (x != "media:"@ && exists|i: int|
            0 <= i < args.len() && takes_media(#[trigger] args[i], x)),
    decreases args.len(),
{
    if args.len() > 0 {
        let rest = args.drop_last();
        lemma_args_exactly(v, rest, x);
        let before = refs_of_args(v, rest);
        lemma_add_ref_exactly(before, args.last().media_urn@, x);
        lemma_sources_exactly(add_ref(before, args.last().media_urn@), args.last().sources@, x);
        assert(args[args.len() - 1] == args.last());
        if exists|i: int| 0 <= i < rest.len() && takes_media(#[trigger] rest[i], x) {
            let i = choose|i: int| 0 <= i < rest.len() && takes_media(#[trigger] rest[i], x);
            assert(args[i] == rest[i]);
        }
        if exists|i: int| 0 <= i < args.len() && takes_media(#[trigger] args[i], x) {
            let i = choose|i: int| 0 <= i < args.len() && takes_media(#[trigger] args[i], x);
            if i < rest.len() {
                assert(rest[i] == args[i]);
            }
        }
    }
}

/// Law: a cap refers to what it takes and gives, to what each of its arguments
/// takes, itself or from the standard input, and to its output, each by its
/// canonical URN, but for the URN that stands for any media; and to nothing else.
pub proof fn law_cap_refers_to_its_media(cap: Cap, x: Seq<char>)
    ensures
        refs_of(cap).contains(x) <==> x != "media:"@ && {
            ||| x == norm_media(direction(cap.urn@, "in"@))
            ||| x == norm_media(direction(cap.urn@, "out"@))
            ||| exists|i: int| 0 <= i < cap.args@.len() && takes_media(#[trigger] cap.args@[i], x)
            ||| cap.output is Some && x == norm_media(cap.output->0@)
        },
{
    let none = Seq::<Seq<char>>::empty();
    let one = add_ref(none, direction(cap.urn@, "in"@));
    let two = add_ref(one, direction(cap.urn@, "out"@));
    lemma_add_ref_exactly(none, direction(cap.urn@, "in"@), x);
    lemma_add_ref_exactly(one, direction(cap.urn@, "out"@), x);
    lemma_args_exactly(two, cap.args@, x);
    if let Some(o) = cap.output {
        lemma_add_ref_exactly(refs_of_args(two, cap.args@), o@, x);
    }
}

/// The standard input is one of the sources, and none before it is.
spec fn first_stdin(sources: Seq<ArgSource>, i: int, s: Seq<char>) -> bool {
    &&& 0 <= i < sources.len()
    &&& sources[i] matches ArgSource::Stdin { stdin }
    &&& stdin@ == s
    &&& forall|j: int| 0 <= j < i ==> (#[trigger] sources[j]) is Other
}

proof fn lemma_stdin_in(sources: Seq<ArgSource>)
    ensures
        match stdin_in(sources) {
            Some(s) => exists|i: int| #[trigger] first_stdin(sources, i, s),
            None => forall|i: int| 0 <= i < sources.len() ==> (#[trigger] sources[i]) is Other,
        },
    decreases sources.len(),
{
    if sources.len() > 0 {
        let rest = sources.drop_first();
        match sources[0] {
            ArgSource::Stdin { stdin } => {
                assert(stdin_in(sources) == Some(stdin@));
                assert(first_stdin(sources, 0, stdin_in(sources)->0));
            },
            ArgSource::Other => {
                lemma_stdin_in(rest);
                assert(stdin_in(sources) == stdin_in(rest));
                match stdin_in(rest) {
                    Some(s) => {
                        let i = choose|i: int| #[trigger] first_stdin(rest, i, s);
                        assert(sources[i + 1] == rest[i]);
                        assert forall|j: int| 0 <= j < i + 1 implies (
                        #[trigger] sources[j]) is Other by {
                            if j > 0 {
                                assert(rest[j - 1] == sources[j]);
                            }
                        }
                        assert(first_stdin(sources, i + 1, stdin_in(sources)->0));
                    },
                    None => {
                        assert forall|i: int| 0 <= i < sources.len() implies (
                        #[trigger] sources[i]) is Other by {
                            if i > 0 {
                                assert(rest[i - 1] == sources[i]);
                            }
                        }
                    },
                }
            },
        }
    }
}

/// No source of the argument is the standard input.
pub open spec fn has_no_stdin(arg: CapArg) -> bool {
    forall|i: int| 0 <= i < arg.sources@.len() ==> (#[trigger] arg.sources@[i]) is Other
}

/// The media URN is that of the first source of the argument that is the
/// standard input.
pub open spec fn has_stdin(arg: CapArg, s: Seq<char>) -> bool {
    exists|i: int|
        {
            &&& 0 <= i < arg.sources@.len()
            &&& (#[trigger] arg.sources@[i]) matches ArgSource::Stdin { stdin }
            &&& stdin@ == s
            &&& forall|j: int| 0 <= j < i ==> (#[trigger] arg.sources@[j]) is Other
        }
}

/// Law: a cap reads what its first argument with a standard input takes from it,
/// and nothing where no argument has one.
pub proof fn law_first_standard_input_is_read(args: Seq<CapArg>)
    ensures
        match stdin_of(args) {
            Some(s) => exists|k: int|
                {
                    &&& 0 <= k < args.len()
                    &&& has_stdin(#[trigger] args[k], s)
                    &&& forall|j: int| 0 <= j < k ==> has_no_stdin(#[trigger] args[j])
                },
            None => forall|k: int| 0 <= k < args.len() ==> has_no_stdin(#[trigger] args[k]),
        },
    decreases args.len(),
{
    if args.len() > 0 {
        let rest = args.drop_first();
        lemma_stdin_in(args[0].sources@);
        match stdin_in(args[0].sources@) {
            Some(s) => {
                let i = choose|i: int| #[trigger] first_stdin(args[0].sources@, i, s);
                assert(args[0].sources@[i] is Stdin);
                assert(has_stdin(args[0], s));
            },
            None => {
                law_first_standard_input_is_read(rest);
                assert(has_no_stdin(args[0]));
                match stdin_of(rest) {
                    Some(s) => {
                        let k = choose|k: int|
                            {
                                &&& 0 <= k < rest.len()
                                &&& has_stdin(#[trigger] rest[k], s)
                                &&& forall|j: int| 0 <= j < k ==> has_no_stdin(#[trigger] rest[j])
                            };
                        assert(args[k + 1] == rest[k]);
                        assert forall|j: int| 0 <= j < k + 1 implies has_no_stdin(
                            #[trigger] args[j],
                        ) by {
                            if j > 0 {
                                assert(rest[j - 1] == args[j]);
                            }
                        }
                    },
                    None => {
                        assert forall|k: int| 0 <= k < args.len() implies has_no_stdin(
                            #[trigger] args[k],
                        ) by {
                            if k > 0 {
                                assert(rest[k - 1] == args[k]);
                            }
                        }
                    },
                }
            },
        }
    }
}

// ---------------------------------------------------------------------------
// What is found
// ---------------------------------------------------------------------------

/// The definition has this extension, in whatever case.
pub open spec fn has_extension(def: StoredMediaDef, k: Seq<char>) -> bool {
    exists|i: int| 0 <= i < def.extensions@.len() && lowercase((#[trigger] def.extensions@[i])@) == k
}

proof fn lemma_index_all_exactly(
    m: Map<Seq<char>, Seq<Seq<char>>>,
    exts: Seq<Seq<char>>,
    urn: Seq<char>,
    once: bool,
    k: Seq<char>,
    u: Seq<char>,
)
    ensures
        urns_under(index_all(m, exts, urn, once), k).contains(u) <==> urns_under(m, k).contains(u)
            || (u == urn && exists|i: int|
            0 <= i < exts.len() && lowercase(#[trigger] exts[i]) == k),
    decreases exts.len(),
{
    lemma_index_all(m, exts, urn, once);
    if exts.len() > 0 {
        let rest = exts.drop_last();
        lemma_index_all_exactly(m, rest, urn, once, k, u);
        let before = index_all(m, rest, urn, once);
        let after = index_all(m, exts, urn, once);
        let last = lowercase(exts.last());
        assert(exts[exts.len() - 1] == exts.last());
        if exists|i: int| 0 <= i < rest.len() && lowercase(#[trigger] rest[i]) == k {
            let i = choose|i: int| 0 <= i < rest.len() && lowercase(#[trigger] rest[i]) == k;
            assert(exts[i] == rest[i]);
        }
        if urns_under(after, k).contains(u) && !urns_under(before, k).contains(u) {
            let i = urns_under(after, k).index_of(u);
            if k == last && i < urns_under(before, k).len() {
                assert(urns_under(before, k)[i] == u);
            }
        }
    }
}

/// Law: under an extension stand exactly the URNs of the definitions that have
/// it, in whatever case.
pub proof fn law_index_lists_what_has_the_extension(
    defs: Seq<(String, StoredMediaDef)>,
    k: Seq<char>,
    u: Seq<char>,
)
    ensures
        urns_under(index_of_defs(defs), k).contains(u) <==> exists|d: int|
            0 <= d < defs.len() && (#[trigger] defs[d]).1.urn@ == u && has_extension(defs[d].1, k),
    decreases defs.len(),
{
    if defs.len() > 0 {
        let rest = defs.drop_last();
        let def = defs.last().1;
        law_index_lists_what_has_the_extension(rest, k, u);
        lemma_index_all_exactly(
            index_of_defs(rest),
            texts(def.extensions@),
            def.urn@,
            false,
            k,
            u,
        );
        assert(defs[defs.len() - 1] == defs.last());
        let exts = texts(def.extensions@);
        if has_extension(def, k) {
            let i = choose|i: int|
                0 <= i < def.extensions@.len() && lowercase((#[trigger] def.extensions@[i])@) == k;
            assert(exts[i] == def.extensions@[i]@);
        }
        if exists|i: int| 0 <= i < exts.len() && lowercase(#[trigger] exts[i]) == k {
            let i = choose|i: int| 0 <= i < exts.len() && lowercase(#[trigger] exts[i]) == k;
            assert(def.extensions@[i]@ == exts[i]);
        }
        if exists|d: int|
            0 <= d < rest.len() && (#[trigger] rest[d]).1.urn@ == u && has_extension(rest[d].1, k) {
            let d = choose|d: int|
                0 <= d < rest.len() && (#[trigger] rest[d]).1.urn@ == u && has_extension(
                    rest[d].1,
                    k,
                );
            assert(defs[d] == rest[d]);
        }
        if exists|d: int|
            0 <= d < defs.len() && (#[trigger] defs[d]).1.urn@ == u && has_extension(defs[d].1, k) {
            let d = choose|d: int|
                0 <= d < defs.len() && (#[trigger] defs[d]).1.urn@ == u && has_extension(
                    defs[d].1,
                    k,
                );
            if d < rest.len() {
                assert(rest[d] == defs[d]);
            }
        }
    }
}

/// Law: the bookends are exactly the media of the definitions that have an
/// extension.
pub proof fn law_bookends_have_an_extension(
    defs: Seq<(String, StoredMediaDef)>,
    urn: Seq<TagView>,
)
    ensures
        bookends(defs).contains(urn) <==> exists|d: int|
            0 <= d < defs.len() && media_parse((#[trigger] defs[d]).1.urn@) == Some(urn)
                && defs[d].1.extensions@.len() > 0,
    decreases defs.len(),
{
    if defs.len() > 0 {
        let rest = defs.drop_last();
        law_bookends_have_an_extension(rest, urn);
        let before = bookends(rest);
        let all = bookends(defs);
        assert(defs[defs.len() - 1] == defs.last());
        if before.contains(urn) {
            let i = before.index_of(urn);
            assert(all[i] == urn);
        }
        if all.contains(urn) && !before.contains(urn) {
            let i = all.index_of(urn);
            if i < before.len() {
                assert(before[i] == urn);
            }
        }
        if all.len() > before.len() {
            assert(all[all.len() - 1] == media_parse(defs.last().1.urn@)->0);
        }
        if exists|d: int|
            0 <= d < rest.len() && media_parse((#[trigger] rest[d]).1.urn@) == Some(urn)
                && rest[d].1.extensions@.len() > 0 {
            let d = choose|d: int|
                0 <= d < rest.len() && media_parse((#[trigger] rest[d]).1.urn@) == Some(urn)
                    && rest[d].1.extensions@.len() > 0;
            assert(defs[d] == rest[d]);
        }
        if exists|d: int|
            0 <= d < defs.len() && media_parse((#[trigger] defs[d]).1.urn@) == Some(urn)
                && defs[d].1.extensions@.len() > 0 {
            let d = choose|d: int|
                0 <= d < defs.len() && media_parse((#[trigger] defs[d]).1.urn@) == Some(urn)
                    && defs[d].1.extensions@.len() > 0;
            if d < rest.len() {
                assert(rest[d] == defs[d]);
            }
        }
    }
}

/// Law: a cap is shown under an alias of its own, and none of its aliases has
/// fewer characters, nor as many and stands before it.
pub proof fn law_shown_alias_is_the_shortest(entries: Seq<(String, StoredAlias)>, urn: Seq<char>)
    ensures
        match display_alias(entries, urn) {
            Some(name) => {
                &&& exists|i: int|
                    0 <= i < entries.len() && (#[trigger] entries[i]).0@ == name && norm_cap(
                        entries[i].1.target@,
                    ) == urn
                &&& forall|j: int|
                    0 <= j < entries.len() && norm_cap((#[trigger] entries[j]).1.target@) == urn
                        ==> name.len() <= entries[j].0@.len() && (name.len() == entries[j].0@.len()
                        ==> !less(entries[j].0@, name))
            },
            None => forall|j: int|
                0 <= j < entries.len() ==> norm_cap((#[trigger] entries[j]).1.target@) != urn,
        },
{
    law_shown_alias_is_the_best(entries, urn);
    match display_alias(entries, urn) {
        Some(name) => {
            let i = choose|i: int| #[trigger] names_cap(entries, urn, i) && entries[i].0@ == name;
            assert(entries[i].0@ == name);
            assert forall|j: int|
                0 <= j < entries.len() && norm_cap(
                    (#[trigger] entries[j]).1.target@,
                ) == urn implies name.len() <= entries[j].0@.len() && (name.len()
                == entries[j].0@.len() ==> !less(entries[j].0@, name)) by {
                assert(names_cap(entries, urn, j));
            }
        },
        None => {
            assert forall|j: int| 0 <= j < entries.len() implies norm_cap(
                (#[trigger] entries[j]).1.target@,
            ) != urn by {
                assert(!names_cap(entries, urn, j));
            }
        },
    }
}

/// Law: what is fetched next for a cap is a media definition that it refers to
/// and that is not there, and all references before it are; nothing is fetched
/// exactly where all are.
pub proof fn law_next_fetch_is_the_first_missing(had: Set<Seq<char>>, refs: Seq<Seq<char>>)
    ensures
        match first_missing(had, refs) {
            Some(m) => exists|i: int|
                {
                    &&& 0 <= i < refs.len()
                    &&& #[trigger] refs[i] == m
                    &&& !had.contains(m)
                    &&& forall|j: int| 0 <= j < i ==> had.contains(#[trigger] refs[j])
                },
            None => forall|i: int| 0 <= i < refs.len() ==> had.contains(#[trigger] refs[i]),
        },
    decreases refs.len(),
{
    if refs.len() > 0 && had.contains(refs[0]) {
        let rest = refs.drop_first();
        law_next_fetch_is_the_first_missing(had, rest);
        match first_missing(had, rest) {
            Some(m) => {
                let i = choose|i: int|
                    {
                        &&& 0 <= i < rest.len()
                        &&& #[trigger] rest[i] == m
                        &&& !had.contains(m)
                        &&& forall|j: int| 0 <= j < i ==> had.contains(#[trigger] rest[j])
                    };
                assert(refs[i + 1] == m);
                assert forall|j: int| 0 <= j < i + 1 implies had.contains(#[trigger] refs[j]) by {
                    if j > 0 {
                        assert(rest[j - 1] == refs[j]);
                    }
                }
            },
            None => {
                assert forall|i: int| 0 <= i < refs.len() implies had.contains(
                    #[trigger] refs[i],
                ) by {
                    if i > 0 {
                        assert(rest[i - 1] == refs[i]);
                    }
                }
            },
        }
    }
}

/// Law: a reply without a definition is told by its own kind of error: a failed
/// request, a definition that is not there, and a body that cannot be read.
pub proof fn law_reply_is_told_by_its_own_error(
    reply: Reply<()>,
    kind: Seq<char>,
    name: Seq<char>,
    urn: Seq<char>,
    defver: u32,
    url: Seq<char>,
    e: FabricRegistryError,
)
    requires
        reply_error(reply, kind, name, urn, defver, url, e),
    ensures
        !(reply is Body),
        reply is Failed <==> e is HttpError,
        reply is Status <==> e is NotFound,
        reply is Unreadable <==> e is ParseError,
{
}

/// Law: each change of the cache gives it another revision.
pub proof fn law_revision_changes(n: u64)
    ensures
        next_revision(n) != n,
        n < u64::MAX ==> next_revision(n) == n + 1,
{
}

/// Law: a definition keeps the version that it has; one without a version has
/// that of the snapshot, so that in a versioned snapshot none is without.
pub proof fn law_own_version_stays(version: u32, pin: u32)
    ensures
        version != 0 ==> stamped(version, pin) == version,
        version == 0 ==> stamped(version, pin) == pin,
        pin > 0 ==> stamped(version, pin) > 0,
        stamped(stamped(version, pin), pin) == stamped(version, pin),
{
}

} // verus!
