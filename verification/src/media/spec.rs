//! Media definitions: what a media URN stands for, its validation rules, and
//! how a stored definition is resolved.
//!
//! JSON values (schemas, metadata) are held as JSON text. The numeric bounds of
//! a validation are held as the bits of the IEEE 754 double, since nothing here
//! computes with them.

use crate::fabric::registry::{FabricRegistryError, StoredMediaDef};
use crate::text::{add_text, clone_opt, clone_texts, opt_text, owned, same_text, texts};
use crate::urn::{lookup, media_parse, MediaUrn};
use vstd::prelude::*;

verus! {

broadcast use vstd::string::group_string_axioms;

// ---------------------------------------------------------------------------
// Profile URLs
// ---------------------------------------------------------------------------

/// The base URL of the schemas, unless another one is configured.
pub const SCHEMA_BASE: &'static str = "https://capdag.com/schema";

/// Profile URL for string type
pub const PROFILE_STR: &'static str = "https://capdag.com/schema/str";

/// Profile URL for integer type
pub const PROFILE_INT: &'static str = "https://capdag.com/schema/int";

/// Profile URL for number type
pub const PROFILE_NUM: &'static str = "https://capdag.com/schema/num";

/// Profile URL for boolean type
pub const PROFILE_BOOL: &'static str = "https://capdag.com/schema/bool";

/// Profile URL for JSON object type
pub const PROFILE_OBJ: &'static str = "https://capdag.com/schema/obj";

/// Profile URL for string array type
pub const PROFILE_STR_ARRAY: &'static str = "https://capdag.com/schema/str-array";

/// Profile URL for integer array type
pub const PROFILE_INT_ARRAY: &'static str = "https://capdag.com/schema/int-array";

/// Profile URL for number array type
pub const PROFILE_NUM_ARRAY: &'static str = "https://capdag.com/schema/num-array";

/// Profile URL for boolean array type
pub const PROFILE_BOOL_ARRAY: &'static str = "https://capdag.com/schema/bool-array";

/// Profile URL for object array type
pub const PROFILE_OBJ_ARRAY: &'static str = "https://capdag.com/schema/obj-array";

/// Profile URL for void (no input)
pub const PROFILE_VOID: &'static str = "https://capdag.com/schema/void";

/// Profile URL for image data (png, jpg, gif, etc.)
pub const PROFILE_IMAGE: &'static str = "https://capdag.com/schema/image";

/// Profile URL for audio data (wav, mp3, flac, etc.)
pub const PROFILE_AUDIO: &'static str = "https://capdag.com/schema/audio";

/// Profile URL for video data (mp4, webm, mov, etc.)
pub const PROFILE_VIDEO: &'static str = "https://capdag.com/schema/video";

/// Profile URL for generic text
pub const PROFILE_TEXT: &'static str = "https://capdag.com/schema/text";

/// Profile URL for PDF documents
pub const PROFILE_PDF: &'static str = "https://capdag.com/schema/pdf";

/// Profile URL for EPUB documents
pub const PROFILE_EPUB: &'static str = "https://capdag.com/schema/epub";

/// Profile URL for Markdown text
pub const PROFILE_MD: &'static str = "https://capdag.com/schema/md";

/// Profile URL for plain text
pub const PROFILE_TXT: &'static str = "https://capdag.com/schema/txt";

/// Profile URL for reStructuredText
pub const PROFILE_RST: &'static str = "https://capdag.com/schema/rst";

/// Profile URL for log files
pub const PROFILE_LOG: &'static str = "https://capdag.com/schema/log";

/// Profile URL for HTML documents
pub const PROFILE_HTML: &'static str = "https://capdag.com/schema/html";

/// Profile URL for XML documents
pub const PROFILE_XML: &'static str = "https://capdag.com/schema/xml";

/// Profile URL for JSON data
pub const PROFILE_JSON: &'static str = "https://capdag.com/schema/json";

/// Profile URL for YAML data
pub const PROFILE_YAML: &'static str = "https://capdag.com/schema/yaml";

/// Profile URL for model download output
pub const PROFILE_CAPDAG_DOWNLOAD_OUTPUT: &'static str = "https://capdag.com/schema/download-output";

/// Profile URL for model load output
pub const PROFILE_CAPDAG_LOAD_OUTPUT: &'static str = "https://capdag.com/schema/load-output";

/// Profile URL for model unload output
pub const PROFILE_CAPDAG_UNLOAD_OUTPUT: &'static str = "https://capdag.com/schema/unload-output";

/// Profile URL for model list output
pub const PROFILE_CAPDAG_LIST_OUTPUT: &'static str = "https://capdag.com/schema/model-list";

/// Profile URL for model status output
pub const PROFILE_CAPDAG_STATUS_OUTPUT: &'static str = "https://capdag.com/schema/status-output";

/// Profile URL for model contents output
pub const PROFILE_CAPDAG_CONTENTS_OUTPUT: &'static str = "https://capdag.com/schema/contents-output";

/// Profile URL for embeddings generate output
pub const PROFILE_CAPDAG_GENERATE_OUTPUT: &'static str = "https://capdag.com/schema/embeddings";

/// Profile URL for questions array
pub const PROFILE_CAPDAG_QUESTIONS_ARRAY: &'static str = "https://capdag.com/schema/questions-array";

/// The base URL of the schemas: the configured schema URL; else the configured
/// registry URL with `/schema` behind it; else the default.
pub open spec fn schema_base(
    schema_url: Option<Seq<char>>,
    registry_url: Option<Seq<char>>,
) -> Seq<char> {
    match (schema_url, registry_url) {
        (Some(s), _) => s,
        (None, Some(r)) => r + "/schema"@,
        (None, None) => SCHEMA_BASE@,
    }
}

/// The base URL of the schemas, from the values of `CDG_SCHEMA_BASE_URL` and
/// `CDG_FABRIC_REGISTRY_URL`.
pub fn get_schema_base(schema_url: &Option<String>, registry_url: &Option<String>) -> (r: String)
    ensures
        r@ == schema_base(opt_text(*schema_url), opt_text(*registry_url)),
{
    match schema_url {
        Some(s) => s.clone(),
        None => match registry_url {
            Some(u) => {
                let mut out = u.clone();
                add_text(&mut out, "/schema");
                out
            },
            None => owned(SCHEMA_BASE),
        },
    }
}

/// The URL of a profile, with the configuration of [`get_schema_base`].
pub fn get_profile_url(
    profile_name: &str,
    schema_url: &Option<String>,
    registry_url: &Option<String>,
) -> (r: String)
    ensures
        r@ == schema_base(opt_text(*schema_url), opt_text(*registry_url)) + "/"@ + profile_name@,
{
    let mut out = get_schema_base(schema_url, registry_url);
    add_text(&mut out, "/");
    add_text(&mut out, profile_name);
    out
}

// ---------------------------------------------------------------------------
// Validation rules
// ---------------------------------------------------------------------------

/// Rules that every value of a media type meets.
#[derive(Debug, PartialEq, Eq)]
pub struct MediaValidation {
    /// The least number, as the bits of a double.
    pub min: Option<u64>,
    /// The greatest number, as the bits of a double.
    pub max: Option<u64>,
    pub min_length: Option<usize>,
    pub max_length: Option<usize>,
    pub pattern: Option<String>,
    pub allowed_values: Option<Vec<String>>,
}

/// The texts of an optional list.
pub open spec fn opt_texts(o: Option<Vec<String>>) -> Option<Seq<Seq<char>>> {
    match o {
        Some(v) => Some(texts(v@)),
        None => None,
    }
}

/// Two validations hold the same rules.
pub open spec fn same_validation(a: Option<MediaValidation>, b: Option<MediaValidation>) -> bool {
    match (a, b) {
        (Some(x), Some(y)) => {
            &&& x.min == y.min
            &&& x.max == y.max
            &&& x.min_length == y.min_length
            &&& x.max_length == y.max_length
            &&& opt_text(x.pattern) == opt_text(y.pattern)
            &&& opt_texts(x.allowed_values) == opt_texts(y.allowed_values)
        },
        (None, None) => true,
        _ => false,
    }
}

impl MediaValidation {
    /// Whether there is no rule.
    pub fn is_empty(&self) -> (r: bool)
        ensures
            r == (self.min is None && self.max is None && self.min_length is None
                && self.max_length is None && self.pattern is None && self.allowed_values is None),
    {
        self.min.is_none() && self.max.is_none() && self.min_length.is_none()
            && self.max_length.is_none() && self.pattern.is_none() && self.allowed_values.is_none()
    }

    /// Bounds on a number, as the bits of doubles.
    pub fn numeric_range(min: Option<u64>, max: Option<u64>) -> (r: Self)
        ensures
            r == (MediaValidation {
                min,
                max,
                min_length: None,
                max_length: None,
                pattern: None,
                allowed_values: None,
            }),
    {
        MediaValidation {
            min,
            max,
            min_length: None,
            max_length: None,
            pattern: None,
            allowed_values: None,
        }
    }

    /// Bounds on the length of a text.
    pub fn string_length(min_length: Option<usize>, max_length: Option<usize>) -> (r: Self)
        ensures
            r == (MediaValidation {
                min: None,
                max: None,
                min_length,
                max_length,
                pattern: None,
                allowed_values: None,
            }),
    {
        MediaValidation {
            min: None,
            max: None,
            min_length,
            max_length,
            pattern: None,
            allowed_values: None,
        }
    }

    /// A pattern that the text matches.
    pub fn with_pattern(pattern: String) -> (r: Self)
        ensures
            r == (MediaValidation {
                min: None,
                max: None,
                min_length: None,
                max_length: None,
                pattern: Some(pattern),
                allowed_values: None,
            }),
    {
        MediaValidation {
            min: None,
            max: None,
            min_length: None,
            max_length: None,
            pattern: Some(pattern),
            allowed_values: None,
        }
    }

    /// The values that are allowed.
    pub fn with_allowed_values(values: Vec<String>) -> (r: Self)
        ensures
            r == (MediaValidation {
                min: None,
                max: None,
                min_length: None,
                max_length: None,
                pattern: None,
                allowed_values: Some(values),
            }),
    {
        MediaValidation {
            min: None,
            max: None,
            min_length: None,
            max_length: None,
            pattern: None,
            allowed_values: Some(values),
        }
    }
}

/// A copy of optional validation rules.
pub fn copy_validation(v: &Option<MediaValidation>) -> (r: Option<MediaValidation>)
    ensures
        same_validation(r, *v),
{
    match v {
        Some(x) => Some(
            MediaValidation {
                min: x.min,
                max: x.max,
                min_length: x.min_length,
                max_length: x.max_length,
                pattern: clone_opt(&x.pattern),
                allowed_values: match &x.allowed_values {
                    Some(values) => Some(clone_texts(values)),
                    None => None,
                },
            },
        ),
        None => None,
    }
}

// ---------------------------------------------------------------------------
// Media definitions
// ---------------------------------------------------------------------------

/// A media definition, as it stands inside a cap definition.
#[derive(Debug, PartialEq, Eq)]
pub struct MediaDef {
    /// The media URN that it defines.
    pub urn: String,
    /// The MIME type.
    pub media_type: String,
    pub title: String,
    pub profile_uri: Option<String>,
    /// A JSON Schema, as JSON text.
    pub schema: Option<String>,
    /// A short description in plain text.
    pub description: Option<String>,
    /// The long description in Markdown.
    pub documentation: Option<String>,
    pub validation: Option<MediaValidation>,
    /// Free metadata, as JSON text.
    pub metadata: Option<String>,
    /// The file extensions that files of this type have.
    pub extensions: Vec<String>,
}

/// `d` has these three fields, and none of the optional ones but `profile_uri`,
/// `schema` and `validation`, of which others speak.
pub open spec fn bare_def(d: MediaDef, urn: Seq<char>, media_type: Seq<char>, title: Seq<char>) -> bool {
    &&& d.urn@ == urn
    &&& d.media_type@ == media_type
    &&& d.title@ == title
    &&& d.description is None
    &&& d.documentation is None
    &&& d.metadata is None
    &&& d.extensions@.len() == 0
}

impl MediaDef {
    /// A definition with nothing but its three required fields.
    pub fn new(urn: &str, media_type: &str, title: &str) -> (r: Self)
        ensures
            bare_def(r, urn@, media_type@, title@),
            r.profile_uri is None,
            r.schema is None,
            r.validation is None,
    {
        MediaDef {
            urn: owned(urn),
            media_type: owned(media_type),
            title: owned(title),
            profile_uri: None,
            schema: None,
            description: None,
            documentation: None,
            validation: None,
            metadata: None,
            extensions: Vec::new(),
        }
    }

    /// A definition with a profile URL.
    pub fn with_profile(urn: &str, media_type: &str, title: &str, profile_uri: &str) -> (r: Self)
        ensures
            bare_def(r, urn@, media_type@, title@),
            opt_text(r.profile_uri) == Some(profile_uri@),
            r.schema is None,
            r.validation is None,
    {
        let mut def = MediaDef::new(urn, media_type, title);
        def.profile_uri = Some(owned(profile_uri));
        def
    }

    /// A definition with a profile URL and a schema.
    pub fn with_schema(
        urn: &str,
        media_type: &str,
        title: &str,
        profile_uri: &str,
        schema: String,
    ) -> (r: Self)
        ensures
            bare_def(r, urn@, media_type@, title@),
            opt_text(r.profile_uri) == Some(profile_uri@),
            r.schema == Some(schema),
            r.validation is None,
    {
        let mut def = MediaDef::with_profile(urn, media_type, title, profile_uri);
        def.schema = Some(schema);
        def
    }

    /// A definition with validation rules.
    pub fn with_validation(
        urn: &str,
        media_type: &str,
        title: &str,
        validation: MediaValidation,
    ) -> (r: Self)
        ensures
            bare_def(r, urn@, media_type@, title@),
            r.profile_uri is None,
            r.schema is None,
            r.validation == Some(validation),
    {
        let mut def = MediaDef::new(urn, media_type, title);
        def.validation = Some(validation);
        def
    }

    /// The long description.
    pub fn get_documentation(&self) -> (r: Option<&str>)
        ensures
            match r {
                Some(s) => opt_text(self.documentation) == Some(s@),
                None => self.documentation is None,
            },
    {
        match &self.documentation {
            Some(s) => Some(s.as_str()),
            None => None,
        }
    }

    /// Sets the long description, and nothing else.
    pub fn set_documentation(&mut self, documentation: &str)
        ensures
            opt_text(final(self).documentation) == Some(documentation@),
            *final(self) == (MediaDef { documentation: final(self).documentation, ..*old(self) }),
    {
        self.documentation = Some(owned(documentation));
    }

    /// Takes the long description away, and nothing else.
    pub fn clear_documentation(&mut self)
        ensures
            *final(self) == (MediaDef { documentation: None, ..*old(self) }),
    {
        self.documentation = None;
    }
}

// ---------------------------------------------------------------------------
// Resolved definitions
// ---------------------------------------------------------------------------

/// A definition that a media URN was resolved to.
#[derive(Debug, PartialEq, Eq)]
pub struct ResolvedMediaDef {
    /// The media URN that was resolved.
    pub media_urn: String,
    pub media_type: String,
    pub profile_uri: Option<String>,
    pub schema: Option<String>,
    pub title: Option<String>,
    pub description: Option<String>,
    pub documentation: Option<String>,
    pub validation: Option<MediaValidation>,
    pub metadata: Option<String>,
    pub extensions: Vec<String>,
}

/// The media URN `urn` has a tag with this key.
pub open spec fn urn_has(urn: Seq<char>, key: Seq<char>) -> bool {
    lookup(media_parse(urn)->0, key) is Some
}

impl ResolvedMediaDef {
    /// The URN that was resolved is a media URN.
    pub open spec fn wf(&self) -> bool {
        media_parse(self.media_urn@) is Some
    }

    /// Whether the URN has a tag with this key.
    fn has_marker(&self, key: &str) -> (r: bool)
        requires
            self.wf(),
        ensures
            r == urn_has(self.media_urn@, key@),
    {
        match MediaUrn::from_string(&self.media_urn) {
            Ok(urn) => urn.has_tag(key),
            Err(_) => false,
        }
    }

    /// Whether the data is not text: the URN has no `textable`.
    pub fn is_binary(&self) -> (r: bool)
        requires
            self.wf(),
        ensures
            r == !urn_has(self.media_urn@, "textable"@),
    {
        !self.has_marker("textable")
    }

    /// Whether the data has fields: the URN has `record`.
    pub fn is_record(&self) -> (r: bool)
        requires
            self.wf(),
        ensures
            r == urn_has(self.media_urn@, "record"@),
    {
        self.has_marker("record")
    }

    /// Whether the data is one value: the URN has no `list`.
    pub fn is_scalar(&self) -> (r: bool)
        requires
            self.wf(),
        ensures
            r == !urn_has(self.media_urn@, "list"@),
    {
        !self.has_marker("list")
    }

    /// Whether the data is a list of values: the URN has `list`.
    pub fn is_list(&self) -> (r: bool)
        requires
            self.wf(),
        ensures
            r == urn_has(self.media_urn@, "list"@),
    {
        self.has_marker("list")
    }

    /// Whether the data is a record or a list.
    pub fn is_structured(&self) -> (r: bool)
        requires
            self.wf(),
        ensures
            r == (urn_has(self.media_urn@, "record"@) || urn_has(self.media_urn@, "list"@)),
    {
        self.is_record() || self.is_list()
    }

    /// Whether the data is JSON: the URN has `json`.
    pub fn is_json(&self) -> (r: bool)
        requires
            self.wf(),
        ensures
            r == urn_has(self.media_urn@, "json"@),
    {
        self.has_marker("json")
    }

    /// Whether the data is text: the URN has `textable`.
    pub fn is_text(&self) -> (r: bool)
        requires
            self.wf(),
        ensures
            r == urn_has(self.media_urn@, "textable"@),
    {
        self.has_marker("textable")
    }

    /// Whether the data is an image: the URN has `image`.
    pub fn is_image(&self) -> (r: bool)
        requires
            self.wf(),
        ensures
            r == urn_has(self.media_urn@, "image"@),
    {
        self.has_marker("image")
    }

    /// Whether the data is audio: the URN has `audio`.
    pub fn is_audio(&self) -> (r: bool)
        requires
            self.wf(),
        ensures
            r == urn_has(self.media_urn@, "audio"@),
    {
        self.has_marker("audio")
    }

    /// Whether the data is video: the URN has `video`.
    pub fn is_video(&self) -> (r: bool)
        requires
            self.wf(),
        ensures
            r == urn_has(self.media_urn@, "video"@),
    {
        self.has_marker("video")
    }

    /// Whether the data is a number: the URN has `numeric`.
    pub fn is_numeric(&self) -> (r: bool)
        requires
            self.wf(),
        ensures
            r == urn_has(self.media_urn@, "numeric"@),
    {
        self.has_marker("numeric")
    }

    /// Whether the data is a truth value: the URN has `bool`.
    pub fn is_bool(&self) -> (r: bool)
        requires
            self.wf(),
        ensures
            r == urn_has(self.media_urn@, "bool"@),
    {
        self.has_marker("bool")
    }
}

// ---------------------------------------------------------------------------
// Resolution and errors
// ---------------------------------------------------------------------------

/// What can go wrong with media definitions.
#[derive(Debug, PartialEq, Eq)]
pub enum MediaDefError {
    /// A media URN has no definition.
    UnresolvableMediaUrn(String),
    /// A media URN is defined twice.
    DuplicateMediaUrn(String),
}

impl MediaDefError {
    /// The error as a message.
    pub open spec fn message(self) -> Seq<char> {
        match self {
            MediaDefError::UnresolvableMediaUrn(urn) => "cannot resolve media URN '"@ + urn@
                + "' - not found in media_defs or registry"@,
            MediaDefError::DuplicateMediaUrn(urn) => "duplicate media URN '"@ + urn@
                + "' in media_defs - each URN must be unique"@,
        }
    }

    /// The error as a message.
    pub fn to_string(&self) -> (r: String)
        ensures
            r@ == self.message(),
    {
        match self {
            MediaDefError::UnresolvableMediaUrn(urn) => {
                let mut out = owned("cannot resolve media URN '");
                add_text(&mut out, urn);
                add_text(&mut out, "' - not found in media_defs or registry");
                out
            },
            MediaDefError::DuplicateMediaUrn(urn) => {
                let mut out = owned("duplicate media URN '");
                add_text(&mut out, urn);
                add_text(&mut out, "' in media_defs - each URN must be unique");
                out
            },
        }
    }
}

/// What a media URN resolves to, given what the registry found under it: the
/// stored definition, field by field, under the URN that was asked for.
pub fn resolve_media_urn(
    media_urn: &str,
    found: Result<StoredMediaDef, FabricRegistryError>,
) -> (r: Result<ResolvedMediaDef, MediaDefError>)
    ensures
        match found {
            Ok(stored) => {
                &&& r is Ok
                &&& r->Ok_0.media_urn@ == media_urn@
                &&& r->Ok_0.media_type == stored.media_type
                &&& r->Ok_0.profile_uri == stored.profile_uri
                &&& r->Ok_0.schema == stored.schema
                &&& r->Ok_0.title == Some(stored.title)
                &&& r->Ok_0.description == stored.description
                &&& r->Ok_0.documentation == stored.documentation
                &&& r->Ok_0.validation == stored.validation
                &&& r->Ok_0.metadata == stored.metadata
                &&& r->Ok_0.extensions == stored.extensions
            },
            Err(e) => {
                &&& r matches Err(MediaDefError::UnresolvableMediaUrn(text))
                &&& text@ == "cannot resolve media URN '"@ + media_urn@ + "' via registry: "@
                    + e.message()
            },
        },
{
    match found {
        Ok(stored) => Ok(
            ResolvedMediaDef {
                media_urn: owned(media_urn),
                media_type: stored.media_type,
                profile_uri: stored.profile_uri,
                schema: stored.schema,
                title: Some(stored.title),
                description: stored.description,
                documentation: stored.documentation,
                validation: stored.validation,
                metadata: stored.metadata,
                extensions: stored.extensions,
            },
        ),
        Err(e) => {
            let mut text = owned("cannot resolve media URN '");
            add_text(&mut text, media_urn);
            add_text(&mut text, "' via registry: ");
            add_text(&mut text, &e.to_string());
            Err(MediaDefError::UnresolvableMediaUrn(text))
        },
    }
}

/// The definition at `i` repeats the URN of an earlier one.
pub open spec fn repeats(defs: Seq<MediaDef>, i: int) -> bool {
    exists|j: int| 0 <= j < i && (#[trigger] defs[j]).urn@ == defs[i].urn@
}

/// Checks that no URN is defined twice; the error names the first URN that is
/// repeated.
pub fn validate_media_defs_no_duplicates(media_defs: &[MediaDef]) -> (r: Result<
    (),
    MediaDefError,
>)
    ensures
        match r {
            Ok(()) => forall|i: int| 0 <= i < media_defs@.len() ==> !repeats(media_defs@, i),
            Err(e) => exists|i: int|
                {
                    &&& 0 <= i < media_defs@.len()
                    &&& #[trigger] repeats(media_defs@, i)
                    &&& forall|k: int| 0 <= k < i ==> !repeats(media_defs@, k)
                    &&& e matches MediaDefError::DuplicateMediaUrn(urn)
                    &&& urn@ == media_defs@[i].urn@
                },
        },
{
    let mut i: usize = 0;
    while i < media_defs.len()
        invariant
            i <= media_defs@.len(),
            forall|k: int| 0 <= k < i ==> !repeats(media_defs@, k),
        decreases media_defs@.len() - i,
    {
        let mut j: usize = 0;
        while j < i
            invariant
                j <= i < media_defs@.len(),
                forall|k: int|
                    0 <= k < j ==> (#[trigger] media_defs@[k]).urn@ != media_defs@[i as int].urn@,
                forall|k: int| 0 <= k < i ==> !repeats(media_defs@, k),
            decreases i - j,
        {
            if same_text(&media_defs[j].urn, &media_defs[i].urn) {
                assert(repeats(media_defs@, i as int));
                return Err(MediaDefError::DuplicateMediaUrn(media_defs[i].urn.clone()));
            }
            j = j + 1;
        }
        i = i + 1;
    }
    Ok(())
}

/// Law: the definitions pass the check exactly where all URNs differ.
pub proof fn law_no_duplicates_means_distinct(defs: Seq<MediaDef>)
    ensures
        (forall|i: int| 0 <= i < defs.len() ==> !repeats(defs, i)) == (forall|i: int, j: int|
            0 <= i < j < defs.len() ==> (#[trigger] defs[i]).urn@ != (#[trigger] defs[j]).urn@),
{
    if forall|i: int| 0 <= i < defs.len() ==> !repeats(defs, i) {
        assert forall|i: int, j: int| 0 <= i < j < defs.len() implies (#[trigger] defs[i]).urn@ != (
        #[trigger] defs[j]).urn@ by {
            assert(!repeats(defs, j));
        }
    } else {
        let i = choose|i: int| 0 <= i < defs.len() && repeats(defs, i);
        let j = choose|j: int| 0 <= j < i && (#[trigger] defs[j]).urn@ == defs[i].urn@;
        assert(defs[j].urn@ == defs[i].urn@);
    }
}

/// Law: the schemas lie where they are configured to, else below the registry
/// that is configured; an address of the schemas counts whatever the registry is.
pub proof fn law_schemas_lie_where_configured(
    schema_url: Seq<char>,
    registry_url: Seq<char>,
    any: Option<Seq<char>>,
)
    ensures
        schema_base(Some(schema_url), any) == schema_url,
        schema_base(None, Some(registry_url)) == registry_url + "/schema"@,
{
}

} // verus!
