//! The schemas of profiles: which are kept, and how values are checked against
//! them.
//!
//! Schemas and values are JSON text. A schema is kept only if it compiles. A
//! value of a profile without a schema is not checked. Fetching and the files
//! of the cache are the caller's.

use crate::digest::{digest_text, text_digest};
use crate::fabric::registry::{is_expired, Reply};
use crate::media::pattern::{
    has_buildable_patterns, has_plain_patterns, is_buildable, negative_zero_from,
    patterns_are_plain,
};
use crate::media::reference::{has_ending_references, references_end, Spot};
use crate::text::{add_text, chars_of, contains_text, occurs, owned, text_between, texts};
use crate::text_map::TextMap;
use jsonschema::JSONSchema;
use serde_json::Value;
use vstd::prelude::*;

verus! {

broadcast use vstd::string::group_string_axioms;

/// How many hours a fetched schema is kept: one week.
pub const CACHE_DURATION_HOURS: u64 = 168;

/// What can go wrong with a schema.
#[derive(Debug, PartialEq, Eq)]
pub enum ProfileSchemaError {
    HttpError(String),
    NotFound(String),
    ParseError(String),
    InvalidSchema(String),
    CacheError(String),
    NetworkBlocked(String),
    /// Whether the text for this profile is a schema is the caller's to find out.
    LeftToCaller(String),
}

impl ProfileSchemaError {
    /// The error as a message.
    pub open spec fn message(self) -> Seq<char> {
        match self {
            ProfileSchemaError::HttpError(s) => "HTTP error: "@ + s@,
            ProfileSchemaError::NotFound(s) => "Schema not found: "@ + s@,
            ProfileSchemaError::ParseError(s) => "Failed to parse schema: "@ + s@,
            ProfileSchemaError::InvalidSchema(s) => "Invalid JSON Schema: "@ + s@,
            ProfileSchemaError::CacheError(s) => "Cache error: "@ + s@,
            ProfileSchemaError::NetworkBlocked(s) => "Network access blocked: "@ + s@,
            ProfileSchemaError::LeftToCaller(s) => "Schema not compiled: "@ + s@,
        }
    }

    /// The error as a message.
    pub fn to_string(&self) -> (r: String)
        ensures
            r@ == self.message(),
    {
        let (head, tail) = match self {
            ProfileSchemaError::HttpError(s) => ("HTTP error: ", s),
            ProfileSchemaError::NotFound(s) => ("Schema not found: ", s),
            ProfileSchemaError::ParseError(s) => ("Failed to parse schema: ", s),
            ProfileSchemaError::InvalidSchema(s) => ("Invalid JSON Schema: ", s),
            ProfileSchemaError::CacheError(s) => ("Cache error: ", s),
            ProfileSchemaError::NetworkBlocked(s) => ("Network access blocked: ", s),
            ProfileSchemaError::LeftToCaller(s) => ("Schema not compiled: ", s),
        };
        let mut out = owned(head);
        add_text(&mut out, tail);
        out
    }
}

// ---------------------------------------------------------------------------
// JSON and JSON Schema
// ---------------------------------------------------------------------------

/// Whether a text is JSON, or why not.
pub uninterp spec fn json_read(text: Seq<char>) -> Result<(), Seq<char>>;

/// `serde_json::from_str` into a `Value`: whether the text is read, and the
/// error's text, are functions of the text alone.
#[verifier::external_body]
fn read_json(text: &str) -> (r: Result<(), String>)
    ensures
        match r {
            Ok(()) => json_read(text@) == Ok::<(), Seq<char>>(()),
            Err(e) => json_read(text@) == Err::<(), Seq<char>>(e@),
        },
{
    match serde_json::from_str::<Value>(text) {
        Ok(_) => Ok(()),
        Err(e) => Err(e.to_string()),
    }
}

/// Why a JSON text is no JSON Schema, if it is none.
pub uninterp spec fn schema_fault(schema: Seq<char>) -> Option<Seq<char>>;

/// A JSON text is a JSON Schema.
pub open spec fn schema_compiles(schema: Seq<char>) -> bool {
    schema_fault(schema) is None
}

/// `jsonschema::JSONSchema::compile`: whether a JSON text compiles, and the text
/// of the first error where it does not, are functions of the text alone. A text
/// whose patterns are not safe to build is left out: the sizes of a pattern are
/// added and multiplied without a check.
#[verifier::external_body]
fn compile_schema(schema: &str) -> (r: Result<(), String>)
    requires
        json_read(schema@) is Ok,
        is_buildable(schema@),
    ensures
        match r {
            Ok(()) => schema_fault(schema@) is None,
            Err(e) => schema_fault(schema@) == Some(e@),
        },
{
    let schema: Value = serde_json::from_str(schema).map_err(|e| e.to_string())?;
    match JSONSchema::compile(&schema) {
        Ok(_) => Ok(()),
        Err(e) => Err(e.to_string()),
    }
}

/// The errors of a value against a schema, in their order.
pub uninterp spec fn schema_errors(schema: Seq<char>, value: Seq<char>) -> Seq<Seq<char>>;

/// The two texts settle what comes of holding the value against the schema. They
/// may not where the schema asks for distinct items and the value may hold a
/// zero with a minus sign: a long array is told apart by hashes, which differ
/// from call to call for the two zeros, and these are equal.
pub open spec fn is_settled(schema: Seq<char>, value: Seq<char>) -> bool {
    !occurs(schema, "uniqueItems"@) || !negative_zero_from(value, 0, Spot::Outside)
}

/// Holding the value against the schema comes to an end: the patterns of the
/// schema are safe to build and do not go back, so are those of the value where
/// the schema may ask for patterns, and the references of the schema end.
pub open spec fn is_safe(schema: Seq<char>, value: Seq<char>) -> bool {
    &&& is_buildable(schema)
    &&& patterns_are_plain(schema)
    &&& references_end(schema, value)
    &&& !occurs(schema, "regex"@) || is_buildable(value)
}

/// Whether holding the value against the schema comes to an end.
pub fn is_safe_to_check(schema: &str, value: &str) -> (r: bool)
    ensures
        r == is_safe(schema@, value@),
{
    has_buildable_patterns(schema) && has_plain_patterns(schema) && has_ending_references(schema, value)
        && (!contains_text(schema, "regex") || has_buildable_patterns(value))
}

/// `jsonschema::JSONSchema::validate`: the errors of a value against a schema,
/// in their order, are a function of the two texts where these settle them, and
/// there are none exactly where the value meets the schema. Elsewhere nothing is
/// said but that a refusal has at least one error. Texts that are not safe are
/// left out: references that lead back to themselves may be followed without
/// end, and a pattern that goes back may not come to an end, or panic.
#[verifier::external_body]
fn validate_value(schema: &str, value: &str) -> (r: Result<(), Vec<String>>)
    requires
        json_read(schema@) is Ok,
        json_read(value@) is Ok,
        schema_compiles(schema@),
        is_safe(schema@, value@),
    ensures
        r matches Err(errors) ==> errors@.len() > 0,
        is_settled(schema@, value@) ==> schema_errors(schema@, value@) == error_texts(r),
{
    let schema: Value = serde_json::from_str(schema).unwrap();
    let value: Value = serde_json::from_str(value).unwrap();
    let compiled = JSONSchema::compile(&schema).unwrap();
    let outcome = match compiled.validate(&value) {
        Ok(()) => Ok(()),
        Err(errors) => Err(errors.map(|e| e.to_string()).collect()),
    };
    outcome
}

/// The errors of an outcome: none where it is a success.
pub open spec fn error_texts(outcome: Result<(), Vec<String>>) -> Seq<Seq<char>> {
    match outcome {
        Ok(()) => Seq::empty(),
        Err(errors) => texts(errors@),
    }
}

// ---------------------------------------------------------------------------
// The registry
// ---------------------------------------------------------------------------

/// What comes of checking a value.
#[derive(Debug, PartialEq, Eq)]
pub enum Checked {
    /// The value meets the schema, or the profile has none here.
    Passed,
    /// The value does not meet the schema, for these reasons.
    Failed(Vec<String>),
    /// Holding the value against the schema may not come to an end; it is left to
    /// the caller.
    LeftToCaller,
}

/// What the outcome of a validation comes to.
pub fn checked(outcome: Result<(), Vec<String>>) -> (r: Checked)
    ensures
        match outcome {
            Ok(()) => r == Checked::Passed,
            Err(errors) => r == Checked::Failed(errors),
        },
{
    match outcome {
        Ok(()) => Checked::Passed,
        Err(errors) => Checked::Failed(errors),
    }
}

/// What comes of reading a file of the cache.
#[derive(Debug, Clone, Copy, PartialEq, Eq, Structural)]
pub enum Loaded {
    /// The schema is kept.
    Kept,
    /// The entry is out of date; its file is to be removed.
    Expired,
    /// The schema is no schema; the entry is passed over.
    Skipped,
    /// Whether it is one is left to the caller to find out.
    LeftToCaller,
}

/// The schemas by the URL of their profile, as JSON text.
#[derive(Debug)]
pub struct ProfileSchemaRegistry {
    pub schemas: TextMap<String>,
    pub offline: bool,
}

/// What is kept under `profile_url` is `schema`, and all else is as before.
pub open spec fn holds_besides(
    before: ProfileSchemaRegistry,
    after: ProfileSchemaRegistry,
    profile_url: Seq<char>,
    schema: Seq<char>,
) -> bool {
    &&& after.offline == before.offline
    &&& after.schemas@.dom() == before.schemas@.dom().insert(profile_url)
    &&& after.schemas@[profile_url]@ == schema
    &&& forall|url: Seq<char>|
        url != profile_url && #[trigger] before.schemas@.dom().contains(url)
            ==> after.schemas@[url] == before.schemas@[url]
}

/// A schema was kept, or it was not and nothing changed, by what reading and
/// compiling it came to. `head` starts the message for a text that is JSON but
/// no schema.
pub open spec fn kept_by(
    before: ProfileSchemaRegistry,
    after: ProfileSchemaRegistry,
    r: Result<(), ProfileSchemaError>,
    profile_url: Seq<char>,
    schema: Seq<char>,
    head: Seq<char>,
    read: Result<(), Seq<char>>,
    fault: Option<Seq<char>>,
) -> bool {
    match (read, fault) {
        (Err(e), _) => {
            &&& r matches Err(ProfileSchemaError::ParseError(text))
            &&& text@ == "Invalid JSON from "@ + profile_url + ": "@ + e
            &&& after == before
        },
        (Ok(()), Some(e)) => {
            &&& r matches Err(ProfileSchemaError::InvalidSchema(text))
            &&& text@ == head + profile_url + ": "@ + e
            &&& after == before
        },
        (Ok(()), None) => {
            &&& r is Ok
            &&& holds_besides(before, after, profile_url, schema)
        },
    }
}

/// A schema was kept, or it was not and nothing changed. One whose patterns are
/// not safe to build is left to the caller.
pub open spec fn schema_kept(
    before: ProfileSchemaRegistry,
    after: ProfileSchemaRegistry,
    r: Result<(), ProfileSchemaError>,
    profile_url: Seq<char>,
    schema: Seq<char>,
    head: Seq<char>,
) -> bool {
    if json_read(schema) is Ok && !is_buildable(schema) {
        &&& r matches Err(ProfileSchemaError::LeftToCaller(url))
        &&& url@ == profile_url
        &&& after == before
    } else {
        kept_by(
            before,
            after,
            r,
            profile_url,
            schema,
            head,
            json_read(schema),
            schema_fault(schema),
        )
    }
}

/// A text that may be kept: it is JSON, and it compiles as far as that is found
/// out here.
pub open spec fn may_be_kept(schema: Seq<char>) -> bool {
    json_read(schema) is Ok && (is_buildable(schema) ==> schema_compiles(schema))
}

/// A result of an outside call in the model.
pub open spec fn reading(r: Result<(), String>) -> Result<(), Seq<char>> {
    match r {
        Ok(()) => Ok(()),
        Err(e) => Err(e@),
    }
}

/// The error of a result of an outside call.
pub open spec fn fault_of(r: Result<(), String>) -> Option<Seq<char>> {
    match r {
        Ok(()) => None,
        Err(e) => Some(e@),
    }
}

impl ProfileSchemaRegistry {
    /// No URL occurs twice, and every schema is one that may be kept.
    pub open spec fn wf(&self) -> bool {
        &&& self.schemas.wf()
        &&& forall|url: Seq<char>| #[trigger]
            self.schemas@.dom().contains(url) ==> may_be_kept(self.schemas@[url]@)
    }

    /// No schemas.
    pub fn new() -> (r: Self)
        ensures
            r.wf(),
            r.schemas@ == Map::<Seq<char>, String>::empty(),
            !r.offline,
    {
        ProfileSchemaRegistry { schemas: TextMap::new(), offline: false }
    }

    /// Allows or forbids fetching.
    pub fn set_offline(&mut self, offline: bool)
        ensures
            *final(self) == (ProfileSchemaRegistry { offline, ..*old(self) }),
    {
        self.offline = offline;
    }

    /// Keeps a schema that compiles. A text that is no JSON, and one that is no
    /// schema, are errors, and then nothing changes. One whose patterns are not
    /// safe to build is left to the caller, who compiles it and hands over what
    /// came of that.
    pub fn insert_schema(&mut self, profile_url: &str, schema: &str) -> (r: Result<
        (),
        ProfileSchemaError,
    >)
        requires
            old(self).wf(),
        ensures
            final(self).wf(),
            schema_kept(
                *old(self),
                *final(self),
                r,
                profile_url@,
                schema@,
                "Failed to compile schema for "@,
            ),
    {
        self.keep(profile_url, schema, "Failed to compile schema for ")
    }

    /// Keeps a schema, or says why not, by what reading and compiling it came to;
    /// `head` starts the message for one that does not compile.
    pub fn keep_judged(
        &mut self,
        profile_url: &str,
        schema: &str,
        head: &str,
        read: Result<(), String>,
        compiled: Result<(), String>,
    ) -> (r: Result<(), ProfileSchemaError>)
        requires
            old(self).schemas.wf(),
        ensures
            final(self).schemas.wf(),
            old(self).wf() && (r is Ok ==> may_be_kept(schema@)) ==> final(self).wf(),
            kept_by(
                *old(self),
                *final(self),
                r,
                profile_url@,
                schema@,
                head@,
                reading(read),
                fault_of(compiled),
            ),
    {
        match read {
            Err(e) => {
                let mut t = owned("Invalid JSON from ");
                add_text(&mut t, profile_url);
                add_text(&mut t, ": ");
                add_text(&mut t, &e);
                return Err(ProfileSchemaError::ParseError(t));
            },
            Ok(()) => {},
        }
        match compiled {
            Err(e) => {
                let mut t = owned(head);
                add_text(&mut t, profile_url);
                add_text(&mut t, ": ");
                add_text(&mut t, &e);
                return Err(ProfileSchemaError::InvalidSchema(t));
            },
            Ok(()) => {},
        }
        self.schemas.insert(owned(profile_url), owned(schema));
        assert(self.schemas@.dom() =~= old(self).schemas@.dom().insert(profile_url@));
        Ok(())
    }

    /// Keeps a schema that compiles; `head` starts the message for one that
    /// does not.
    fn keep(&mut self, profile_url: &str, schema: &str, head: &str) -> (r: Result<
        (),
        ProfileSchemaError,
    >)
        requires
            old(self).wf(),
        ensures
            final(self).wf(),
            schema_kept(*old(self), *final(self), r, profile_url@, schema@, head@),
    {
        match read_json(schema) {
            Err(e) => self.keep_judged(profile_url, schema, head, Err(e), Ok(())),
            Ok(()) => {
                if !has_buildable_patterns(schema) {
                    return Err(ProfileSchemaError::LeftToCaller(owned(profile_url)));
                }
                let compiled = compile_schema(schema);
                self.keep_judged(profile_url, schema, head, Ok(()), compiled)
            },
        }
    }

    /// Takes in the answer to a fetch: a schema that compiles is kept, and every
    /// other answer is an error.
    pub fn admit_reply(&mut self, profile_url: &str, reply: Reply<String>) -> (r: Result<
        (),
        ProfileSchemaError,
    >)
        requires
            old(self).wf(),
        ensures
            final(self).wf(),
            match reply {
                Reply::Failed(why) => {
                    &&& r matches Err(ProfileSchemaError::HttpError(text))
                    &&& text@ == "Failed to fetch schema from "@ + profile_url@ + ": "@ + why@
                    &&& *final(self) == *old(self)
                },
                Reply::Status(status) => {
                    &&& r matches Err(ProfileSchemaError::NotFound(text))
                    &&& text@ == "Schema not found at "@ + profile_url@ + " (HTTP "@ + status@
                        + ")"@
                    &&& *final(self) == *old(self)
                },
                Reply::Unreadable(why) => {
                    &&& r matches Err(ProfileSchemaError::HttpError(text))
                    &&& text@ == "Failed to read response from "@ + profile_url@ + ": "@ + why@
                    &&& *final(self) == *old(self)
                },
                Reply::Body(schema) => schema_kept(
                    *old(self),
                    *final(self),
                    r,
                    profile_url@,
                    schema@,
                    "Invalid JSON Schema from "@,
                ),
            },
    {
        match reply {
            Reply::Failed(why) => {
                let mut t = owned("Failed to fetch schema from ");
                add_text(&mut t, profile_url);
                add_text(&mut t, ": ");
                add_text(&mut t, &why);
                Err(ProfileSchemaError::HttpError(t))
            },
            Reply::Status(status) => {
                let mut t = owned("Schema not found at ");
                add_text(&mut t, profile_url);
                add_text(&mut t, " (HTTP ");
                add_text(&mut t, &status);
                add_text(&mut t, ")");
                Err(ProfileSchemaError::NotFound(t))
            },
            Reply::Unreadable(why) => {
                let mut t = owned("Failed to read response from ");
                add_text(&mut t, profile_url);
                add_text(&mut t, ": ");
                add_text(&mut t, &why);
                Err(ProfileSchemaError::HttpError(t))
            },
            Reply::Body(schema) => self.keep(profile_url, &schema, "Invalid JSON Schema from "),
        }
    }

    /// Reads an entry of the cache: kept unless it is out of date at `now` or
    /// holds no schema.
    pub fn load_entry(
        &mut self,
        profile_url: &str,
        schema: &str,
        cached_at: u64,
        ttl_hours: u64,
        now: u64,
    ) -> (r: Loaded)
        requires
            old(self).wf(),
            cached_at + ttl_hours * 3600 <= u64::MAX,
        ensures
            final(self).wf(),
            final(self).offline == old(self).offline,
            r == (if now > cached_at + ttl_hours * 3600 {
                Loaded::Expired
            } else if json_read(schema@) is Err {
                Loaded::Skipped
            } else if !is_buildable(schema@) {
                Loaded::LeftToCaller
            } else if schema_compiles(schema@) {
                Loaded::Kept
            } else {
                Loaded::Skipped
            }),
            r != Loaded::Kept ==> *final(self) == *old(self),
            r == Loaded::Kept ==> holds_besides(
                *old(self),
                *final(self),
                profile_url@,
                schema@,
            ),
    {
        if is_expired(cached_at, ttl_hours, now) {
            return Loaded::Expired;
        }
        match self.insert_schema(profile_url, schema) {
            Ok(()) => Loaded::Kept,
            Err(ProfileSchemaError::LeftToCaller(_)) => Loaded::LeftToCaller,
            Err(_) => Loaded::Skipped,
        }
    }

    /// Checks a value against the schema of a profile. A profile without a
    /// schema here is not checked.
    pub fn validate_cached(&self, profile_url: &str, value: &str) -> (r: Checked)
        requires
            self.wf(),
        ensures
            if !self.schemas@.dom().contains(profile_url@) {
                r == Checked::Passed
            } else {
                let schema = self.schemas@[profile_url@]@;
                match json_read(value@) {
                    Err(e) => r matches Checked::Failed(errors) && texts(errors@) == seq![e],
                    Ok(()) => if !is_safe(schema, value@) {
                        r == Checked::LeftToCaller
                    } else if !is_settled(schema, value@) {
                        r == Checked::Passed || (r matches Checked::Failed(errors)
                            && errors@.len() > 0)
                    } else if schema_errors(schema, value@).len() == 0 {
                        r == Checked::Passed
                    } else {
                        r matches Checked::Failed(errors) && texts(errors@) == schema_errors(
                            schema,
                            value@,
                        )
                    },
                }
            },
    {
        let schema = match self.schemas.get(profile_url) {
            Some(s) => s,
            None => {
                return Checked::Passed;
            },
        };
        match read_json(value) {
            Err(e) => {
                let mut errors: Vec<String> = Vec::new();
                let ghost ev = e@;
                errors.push(e);
                assert(texts(errors@) =~= seq![ev]);
                return Checked::Failed(errors);
            },
            Ok(()) => {},
        }
        if !is_safe_to_check(schema, value) {
            return Checked::LeftToCaller;
        }
        checked(validate_value(schema, value))
    }

    /// Whether a profile's schema is here.
    pub fn schema_exists(&self, profile_url: &str) -> (r: bool)
        requires
            self.wf(),
        ensures
            r == self.schemas@.dom().contains(profile_url@),
    {
        self.schemas.contains_key(profile_url)
    }

    /// The profiles whose schema is here.
    pub fn get_cached_profiles(&self) -> (r: Vec<String>)
        ensures
            r@.len() == self.schemas.entries@.len(),
            forall|i: int|
                0 <= i < r@.len() ==> (#[trigger] r@[i])@ == self.schemas.entries@[i].0@,
    {
        let mut out: Vec<String> = Vec::new();
        let mut i: usize = 0;
        while i < self.schemas.entries.len()
            invariant
                i <= self.schemas.entries@.len(),
                out@.len() == i,
                forall|j: int|
                    0 <= j < i ==> (#[trigger] out@[j])@ == self.schemas.entries@[j].0@,
            decreases self.schemas.entries@.len() - i,
        {
            out.push(self.schemas.entries[i].0.clone());
            i = i + 1;
        }
        out
    }

    /// Lets go of all schemas.
    pub fn clear_cache(&mut self)
        requires
            old(self).wf(),
        ensures
            final(self).wf(),
            final(self).schemas@ == Map::<Seq<char>, String>::empty(),
            final(self).schemas.entries@.len() == 0,
            final(self).offline == old(self).offline,
    {
        self.schemas.clear();
    }

    /// Whether a schema may be fetched.
    pub fn fetch_allowed(&self, profile_url: &str) -> (r: Result<(), ProfileSchemaError>)
        ensures
            match r {
                Ok(()) => !self.offline,
                Err(e) => {
                    &&& self.offline
                    &&& e matches ProfileSchemaError::NetworkBlocked(text)
                    &&& text@ == "Network access blocked by policy — cannot fetch schema '"@
                        + profile_url@ + "'"@
                },
            },
    {
        if self.offline {
            let mut t = owned("Network access blocked by policy — cannot fetch schema '");
            add_text(&mut t, profile_url);
            add_text(&mut t, "'");
            return Err(ProfileSchemaError::NetworkBlocked(t));
        }
        Ok(())
    }
}

/// The name of the file that a profile's schema is cached in: the start of the
/// digest of its URL.
pub fn cache_file_name(profile_url: &str) -> (r: String)
    ensures
        r@ == text_digest(profile_url@).subrange(0, 16) + ".json"@,
{
    let digest = digest_text(profile_url);
    let cs = chars_of(&digest);
    let mut out = text_between(&cs, 0, 16);
    add_text(&mut out, ".json");
    out
}

/// Law: what the registry holds compiles, as far as that is found out here. A
/// text that is no schema is never there.
pub proof fn law_kept_schemas_compile(registry: ProfileSchemaRegistry, url: Seq<char>)
    requires
        registry.wf(),
        registry.schemas@.dom().contains(url),
    ensures
        json_read(registry.schemas@[url]@) is Ok,
        is_buildable(registry.schemas@[url]@) ==> schema_compiles(registry.schemas@[url]@),
{
}

/// Law: a schema that is refused changes nothing; one that is kept is found under
/// its URL as it was given, and every other stays as it is. A text that is no JSON
/// is never kept, nor one that is safe to build and does not compile.
pub proof fn law_refused_schema_changes_nothing(
    before: ProfileSchemaRegistry,
    after: ProfileSchemaRegistry,
    r: Result<(), ProfileSchemaError>,
    profile_url: Seq<char>,
    schema: Seq<char>,
    head: Seq<char>,
    other: Seq<char>,
)
    requires
        schema_kept(before, after, r, profile_url, schema, head),
        other != profile_url,
    ensures
        r is Err ==> after == before,
        r is Ok ==> {
            &&& after.schemas@.dom().contains(profile_url)
            &&& after.schemas@[profile_url]@ == schema
            &&& after.schemas@.dom().contains(other) == before.schemas@.dom().contains(other)
            &&& before.schemas@.dom().contains(other) ==> after.schemas@[other]
                == before.schemas@[other]
            &&& after.offline == before.offline
        },
        json_read(schema) is Err ==> r is Err,
        is_buildable(schema) && !schema_compiles(schema) ==> r is Err,
        json_read(schema) is Ok && is_buildable(schema) && schema_compiles(schema) ==> r is Ok,
{
}

} // verus!
