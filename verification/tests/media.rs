//! Media definitions and the schemas of profiles.

use capdag::fabric::registry::{
    normalize_media_urn, Cap, FabricRegistry, Located, Manifest, RegistryConfig, Reply,
    StoredMediaDef,
};
use capdag::media::pattern::{has_buildable_patterns, has_plain_patterns, strings_of};
use capdag::media::profile::{
    cache_file_name, checked, is_safe_to_check, Checked, Loaded, ProfileSchemaError,
    ProfileSchemaRegistry,
};
use capdag::media::reference::{
    bearing_members, has_ending_references, members_of, nesting_of,
};
use capdag::media::spec::{
    get_profile_url, get_schema_base, resolve_media_urn, validate_media_defs_no_duplicates,
    MediaDef, MediaDefError, MediaValidation, ResolvedMediaDef, PROFILE_BOOL, PROFILE_BOOL_ARRAY,
    PROFILE_INT, PROFILE_NUM, PROFILE_NUM_ARRAY, PROFILE_OBJ, PROFILE_OBJ_ARRAY, PROFILE_STR,
    PROFILE_STR_ARRAY,
};
use capdag::text_map::TextMap;
use capdag::urn::CapUrn;

fn stored(urn: &str, media_type: &str, title: &str) -> StoredMediaDef {
    StoredMediaDef {
        urn: urn.to_string(),
        version: 0,
        media_type: media_type.to_string(),
        title: title.to_string(),
        profile_uri: None,
        schema: None,
        description: None,
        documentation: None,
        validation: None,
        metadata: None,
        extensions: Vec::new(),
    }
}

fn test_registry() -> FabricRegistry {
    FabricRegistry::from_caches(
        RegistryConfig::new(None, None),
        0,
        Manifest::empty(0),
        TextMap::new(),
        TextMap::new(),
        Cap {
            urn: CapUrn::from_string("cap:effect=none").unwrap(),
            version: 0,
            title: "identity".to_string(),
            aliases: Vec::new(),
            command: String::new(),
            args: Vec::new(),
            output: None,
            input_is_sequence: false,
            output_is_sequence: false,
        },
        false,
    )
}

fn seeded(def: StoredMediaDef) -> FabricRegistry {
    let mut registry = test_registry();
    registry.insert_cached_media_def_for_test(def);
    registry
}

/// Resolves a URN against what the registry has; it may not fetch.
fn resolve(urn: &str, registry: FabricRegistry) -> Result<ResolvedMediaDef, MediaDefError> {
    match registry.locate_media_def(urn) {
        Located::Cached => {
            let key = normalize_media_urn(urn);
            let mut entries = registry.cached_media_defs.entries.into_iter();
            let (_, def) = entries.find(|(k, _)| *k == key).expect("it is cached");
            resolve_media_urn(urn, Ok(def))
        }
        Located::Fetch { urn: canonical, defver } => {
            let refused = registry.media_fetch_request(&canonical, defver).unwrap_err();
            resolve_media_urn(urn, Err(refused))
        }
        Located::Unknown(e) => resolve_media_urn(urn, Err(e)),
    }
}

fn no_validation() -> MediaValidation {
    MediaValidation {
        min: None,
        max: None,
        min_length: None,
        max_length: None,
        pattern: None,
        allowed_values: None,
    }
}

#[test]
fn test088_resolve_seeded_spec() {
    let found = stored("media:textable", "text/plain", "Textable");
    let resolved = resolve("media:textable", seeded(found)).unwrap();
    assert_eq!(resolved.media_type, "text/plain");
    assert!(resolved.profile_uri.is_none());
}

#[test]
fn test089_resolve_seeded_record_spec() {
    let schema = "{\"type\":\"object\",\"properties\":{\"name\":{\"type\":\"string\"}}}";
    let mut found = stored("media:json;output-spec;record", "application/json", "Output Spec");
    found.profile_uri = Some("https://example.com/schema/output".to_string());
    found.schema = Some(schema.to_string());
    let resolved = resolve("media:json;output-spec;record", seeded(found)).unwrap();
    assert_eq!(resolved.media_type, "application/json");
    assert_eq!(resolved.profile_uri, Some("https://example.com/schema/output".to_string()));
    assert_eq!(resolved.schema, Some(schema.to_string()));
}

#[test]
fn test093_resolve_unresolvable_fails_hard() {
    let mut registry = test_registry();
    registry.set_offline(true);
    let result = resolve("media:completely-unknown-urn-not-in-registry", registry);
    assert!(result.is_err(), "unknown URN must produce an error");
    if let Err(MediaDefError::UnresolvableMediaUrn(msg)) = result {
        assert!(
            msg.contains("media:completely-unknown-urn-not-in-registry"),
            "error must name the failing URN; got: {}",
            msg
        );
    } else {
        panic!("expected UnresolvableMediaUrn error");
    }
}

#[test]
fn test097_validate_no_duplicate_urns_catches_duplicates() {
    let media_defs = vec![
        MediaDef::new("media:dup;json", "application/json", "First"),
        MediaDef::new("media:dup;json", "application/json", "Second"),
    ];
    let result = validate_media_defs_no_duplicates(&media_defs);
    assert!(result.is_err());
    if let Err(MediaDefError::DuplicateMediaUrn(urn)) = result {
        assert_eq!(urn, "media:dup;json");
    } else {
        panic!("Expected DuplicateMediaUrn error");
    }
}

#[test]
fn test098_validate_no_duplicate_urns_passes_for_unique() {
    let media_defs = vec![
        MediaDef::new("media:first;json", "application/json", "First"),
        MediaDef::new("media:second;json", "application/json", "Second"),
    ];
    let result = validate_media_defs_no_duplicates(&media_defs);
    assert!(result.is_ok());
}

fn resolved(media_urn: &str, media_type: &str) -> ResolvedMediaDef {
    ResolvedMediaDef {
        media_urn: media_urn.to_string(),
        media_type: media_type.to_string(),
        profile_uri: None,
        schema: None,
        title: None,
        description: None,
        documentation: None,
        validation: None,
        metadata: None,
        extensions: Vec::new(),
    }
}

#[test]
fn test099_resolved_is_binary() {
    let resolved = resolved("media:", "application/octet-stream");
    assert!(resolved.is_binary());
    assert!(!resolved.is_record());
    assert!(!resolved.is_json());
}

#[test]
fn test100_resolved_is_record() {
    let resolved = resolved("media:record;textable", "application/json");
    assert!(resolved.is_record());
    assert!(!resolved.is_binary());
    assert!(resolved.is_scalar(), "record without list marker is scalar");
    assert!(!resolved.is_list());
}

#[test]
fn test101_resolved_is_scalar() {
    let resolved = resolved("media:textable", "text/plain");
    assert!(resolved.is_scalar());
    assert!(!resolved.is_record());
    assert!(!resolved.is_list());
}

#[test]
fn test102_resolved_is_list() {
    let resolved = resolved("media:list;textable", "application/json");
    assert!(resolved.is_list());
    assert!(!resolved.is_record());
    assert!(!resolved.is_scalar());
}

#[test]
fn test103_resolved_is_json() {
    let resolved = resolved("media:json;record;textable", "application/json");
    assert!(resolved.is_json());
    assert!(resolved.is_record());
    assert!(!resolved.is_binary());
}

#[test]
fn test104_resolved_is_text() {
    let resolved = resolved("media:textable", "text/plain");
    assert!(resolved.is_text());
    assert!(!resolved.is_binary());
    assert!(!resolved.is_json());
}

#[test]
fn test105_metadata_propagation() {
    let metadata = "{\"category_key\":\"interface\",\"ui_type\":\"SETTING_UI_TYPE_CHECKBOX\"}";
    let mut found = stored("media:custom-setting", "text/plain", "Custom Setting");
    found.profile_uri = Some("https://example.com/schema".to_string());
    found.description = Some("A custom setting".to_string());
    found.metadata = Some(metadata.to_string());
    let resolved = resolve("media:custom-setting", seeded(found)).unwrap();
    assert_eq!(resolved.metadata.as_deref(), Some(metadata));
}

#[test]
fn test106_metadata_with_validation() {
    let mut found = stored("media:bounded-number;numeric", "text/plain", "Bounded Number");
    found.profile_uri = Some("https://example.com/schema".to_string());
    found.validation = Some(MediaValidation {
        min: Some(0.0f64.to_bits()),
        max: Some(100.0f64.to_bits()),
        ..no_validation()
    });
    let metadata = "{\"category_key\":\"inference\",\"ui_type\":\"SETTING_UI_TYPE_SLIDER\"}";
    found.metadata = Some(metadata.to_string());
    let resolved = resolve("media:bounded-number;numeric", seeded(found)).unwrap();
    assert!(resolved.validation.is_some());
    let validation = resolved.validation.unwrap();
    assert_eq!(validation.min, Some(0.0f64.to_bits()));
    assert_eq!(validation.max, Some(100.0f64.to_bits()));
    assert_eq!(resolved.metadata.as_deref(), Some(metadata));
}

#[test]
fn test107_extensions_propagation() {
    let mut found = stored("media:custom-pdf", "application/pdf", "PDF Document");
    found.profile_uri = Some("https://capdag.com/schema/pdf".to_string());
    found.description = Some("A PDF document".to_string());
    found.extensions = vec!["pdf".to_string()];
    let resolved = resolve("media:custom-pdf", seeded(found)).unwrap();
    assert_eq!(resolved.extensions, vec!["pdf".to_string()]);
}

#[test]
fn test893_extensions_with_metadata_and_validation() {
    let mut found = stored("media:custom-output;json", "application/json", "Custom Output");
    found.profile_uri = Some("https://example.com/schema".to_string());
    found.validation = Some(MediaValidation {
        min_length: Some(1),
        max_length: Some(1000),
        ..no_validation()
    });
    found.metadata = Some("{\"category\":\"output\"}".to_string());
    found.extensions = vec!["json".to_string()];
    let resolved = resolve("media:custom-output;json", seeded(found)).unwrap();
    assert!(resolved.validation.is_some());
    assert!(resolved.metadata.is_some());
    assert_eq!(resolved.extensions, vec!["json".to_string()]);
}

#[test]
fn test894_multiple_extensions() {
    let mut found = stored("media:image;jpeg", "image/jpeg", "JPEG Image");
    found.profile_uri = Some("https://capdag.com/schema/jpeg".to_string());
    found.description = Some("JPEG image data".to_string());
    found.extensions = vec!["jpg".to_string(), "jpeg".to_string()];
    let resolved = resolve("media:image;jpeg", seeded(found)).unwrap();
    assert_eq!(resolved.extensions, vec!["jpg".to_string(), "jpeg".to_string()]);
    assert_eq!(resolved.extensions.len(), 2);
}

#[test]
fn test1131_media_documentation_propagates_through_resolve() {
    let body = "## Markdown body\n\nWith `code` and a [link](https://example.com).";
    let mut found = stored("media:doc-test;textable", "text/plain", "Documented");
    found.description = Some("short desc".to_string());
    found.documentation = Some(body.to_string());
    let resolved = resolve("media:doc-test;textable", seeded(found)).unwrap();
    assert_eq!(
        resolved.documentation.as_deref(),
        Some(body),
        "documentation must propagate from MediaDef into ResolvedMediaDef"
    );
    assert_eq!(resolved.description.as_deref(), Some("short desc"));
}

#[test]
fn test1133_media_def_def_documentation_lifecycle() {
    let mut spec = MediaDef {
        urn: "media:doc-test".to_string(),
        media_type: "text/plain".to_string(),
        title: "Doc Test".to_string(),
        profile_uri: None,
        schema: None,
        description: Some("short".to_string()),
        documentation: None,
        validation: None,
        metadata: None,
        extensions: Vec::new(),
    };
    assert!(spec.get_documentation().is_none());
    assert_eq!(spec.description.as_deref(), Some("short"));

    spec.set_documentation("body");
    assert_eq!(spec.get_documentation(), Some("body"));
    assert_eq!(spec.description.as_deref(), Some("short"));

    spec.clear_documentation();
    assert!(spec.get_documentation().is_none());
    assert_eq!(spec.description.as_deref(), Some("short"));
}

#[test]
fn media_types_are_told_by_their_tags() {
    assert!(resolved("media:image;png", "image/png").is_image());
    assert!(resolved("media:audio", "audio/wav").is_audio());
    assert!(resolved("media:video", "video/mp4").is_video());
    assert!(resolved("media:numeric", "text/plain").is_numeric());
    assert!(resolved("media:bool", "text/plain").is_bool());
    assert!(resolved("media:list", "text/plain").is_structured());
}

#[test]
fn validations_and_schema_addresses() {
    assert!(no_validation().is_empty());
    assert!(!MediaValidation::numeric_range(Some(1.5f64.to_bits()), None).is_empty());
    assert_eq!(MediaValidation::string_length(Some(1), Some(2)).max_length, Some(2));
    assert_eq!(MediaValidation::with_pattern("a+".to_string()).pattern.as_deref(), Some("a+"));
    assert!(MediaValidation::with_allowed_values(vec!["a".to_string()]).allowed_values.is_some());
    assert_eq!(get_schema_base(&None, &None), "https://capdag.com/schema");
    assert_eq!(get_schema_base(&Some("https://s.test".to_string()), &None), "https://s.test");
    assert_eq!(
        get_schema_base(&None, &Some("https://r.test".to_string())),
        "https://r.test/schema"
    );
    assert_eq!(get_profile_url("str", &None, &None), PROFILE_STR);
}

// ---------------------------------------------------------------------------
// Profiles
// ---------------------------------------------------------------------------

fn schema_body(profile_url: &str) -> String {
    let (json_type, items) = match profile_url {
        PROFILE_STR => ("string", None),
        PROFILE_INT => ("integer", None),
        PROFILE_NUM => ("number", None),
        PROFILE_BOOL => ("boolean", None),
        PROFILE_OBJ => ("object", None),
        PROFILE_STR_ARRAY => ("array", Some("string")),
        PROFILE_NUM_ARRAY => ("array", Some("number")),
        PROFILE_BOOL_ARRAY => ("array", Some("boolean")),
        PROFILE_OBJ_ARRAY => ("array", Some("object")),
        other => panic!("schema_body: unknown profile URL '{}'", other),
    };
    let head = format!(
        "{{\"$schema\":\"https://json-schema.org/draft/2020-12/schema\",\"$id\":\"{profile_url}\",\"type\":\"{json_type}\""
    );
    match items {
        Some(item_type) => format!("{head},\"items\":{{\"type\":\"{item_type}\"}}}}"),
        None => format!("{head}}}"),
    }
}

fn create_test_registry() -> ProfileSchemaRegistry {
    let mut registry = ProfileSchemaRegistry::new();
    for url in [
        PROFILE_STR,
        PROFILE_INT,
        PROFILE_NUM,
        PROFILE_BOOL,
        PROFILE_OBJ,
        PROFILE_STR_ARRAY,
        PROFILE_NUM_ARRAY,
        PROFILE_BOOL_ARRAY,
        PROFILE_OBJ_ARRAY,
    ] {
        registry
            .insert_schema(url, &schema_body(url))
            .unwrap_or_else(|e| panic!("seed {}: {}", url, e.to_string()));
    }
    registry
}

fn ok(registry: &ProfileSchemaRegistry, url: &str, value: &str) -> bool {
    match registry.validate_cached(url, value) {
        Checked::Passed => true,
        Checked::Failed(errors) => {
            assert!(!errors.is_empty());
            false
        }
        Checked::LeftToCaller => panic!("every schema here is safe to check"),
    }
}

#[test]
fn test619_fresh_registry_cache_is_empty() {
    let registry = ProfileSchemaRegistry::new();
    assert!(
        registry.get_cached_profiles().is_empty(),
        "Fresh registry must have no cached schemas; nothing is bundled into the binary"
    );
    assert!(!registry.schema_exists(PROFILE_STR));
    assert!(!registry.schema_exists(PROFILE_OBJ_ARRAY));
}

#[test]
fn test620_string_validation() {
    let registry = create_test_registry();
    assert!(ok(&registry, PROFILE_STR, "\"hello\""));
    assert!(!ok(&registry, PROFILE_STR, "42"));
}

#[test]
fn test621_integer_validation() {
    let registry = create_test_registry();
    assert!(ok(&registry, PROFILE_INT, "42"));
    assert!(!ok(&registry, PROFILE_INT, "3.14"));
    assert!(!ok(&registry, PROFILE_INT, "\"hello\""));
}

#[test]
fn test622_number_validation() {
    let registry = create_test_registry();
    assert!(ok(&registry, PROFILE_NUM, "42"));
    assert!(ok(&registry, PROFILE_NUM, "3.14"));
    assert!(!ok(&registry, PROFILE_NUM, "\"hello\""));
}

#[test]
fn test623_boolean_validation() {
    let registry = create_test_registry();
    assert!(ok(&registry, PROFILE_BOOL, "true"));
    assert!(ok(&registry, PROFILE_BOOL, "false"));
    assert!(!ok(&registry, PROFILE_BOOL, "\"true\""));
}

#[test]
fn test624_object_validation() {
    let registry = create_test_registry();
    assert!(ok(&registry, PROFILE_OBJ, "{\"key\": \"value\"}"));
    assert!(!ok(&registry, PROFILE_OBJ, "[1, 2, 3]"));
}

#[test]
fn test625_string_array_validation() {
    let registry = create_test_registry();
    assert!(ok(&registry, PROFILE_STR_ARRAY, "[\"a\", \"b\", \"c\"]"));
    assert!(!ok(&registry, PROFILE_STR_ARRAY, "[\"a\", 1, \"c\"]"));
    assert!(!ok(&registry, PROFILE_STR_ARRAY, "\"hello\""));
}

#[test]
fn test626_unknown_profile_skips_validation() {
    let registry = create_test_registry();
    assert!(ok(&registry, "https://example.com/unknown-profile", "\"anything\""));
}

#[test]
fn test611_insert_schema_populates_cache() {
    let mut registry = ProfileSchemaRegistry::new();
    assert!(!registry.schema_exists(PROFILE_STR));
    registry
        .insert_schema(PROFILE_STR, &schema_body(PROFILE_STR))
        .expect("insert_schema must succeed for a valid JSON Schema");
    assert!(
        registry.schema_exists(PROFILE_STR),
        "After insert_schema the URL must be cached"
    );
    assert!(ok(&registry, PROFILE_STR, "\"ok\""));
    assert!(
        !ok(&registry, PROFILE_STR, "7"),
        "Number must not validate against the string schema"
    );
}

#[test]
fn test627_insert_schema_rejects_invalid_schema() {
    let mut registry = ProfileSchemaRegistry::new();
    let bad = "{\"$schema\": \"https://json-schema.org/draft/2020-12/schema\", \"type\": 99}";
    let result = registry.insert_schema("https://capdag.com/schema/bad", bad);
    assert!(result.is_err(), "Invalid schema must not be cached");
    assert!(
        !registry.schema_exists("https://capdag.com/schema/bad"),
        "Failed insert must not leave the URL in the cache"
    );
}

#[test]
fn test612_clear_cache() {
    let mut registry = create_test_registry();
    assert!(registry.schema_exists(PROFILE_STR));
    assert!(!registry.get_cached_profiles().is_empty());
    registry.clear_cache();
    assert!(!registry.schema_exists(PROFILE_STR));
    assert!(registry.get_cached_profiles().is_empty());
}

#[test]
fn test613_validate_cached() {
    let registry = create_test_registry();
    assert!(ok(&registry, PROFILE_STR, "\"hello\""));
    assert!(!ok(&registry, PROFILE_STR, "42"), "Number should not validate as string");
    assert!(ok(&registry, PROFILE_INT, "42"));
    assert!(ok(&registry, PROFILE_OBJ_ARRAY, "[{\"a\": 1}]"));
    assert!(!ok(&registry, PROFILE_OBJ_ARRAY, "[\"a\", \"b\"]"));
    assert!(ok(&registry, "https://example.com/unknown", "\"anything\""));
}

#[test]
fn schemas_that_are_no_json_are_told_apart() {
    let mut registry = ProfileSchemaRegistry::new();
    let err = registry.insert_schema("u", "{").unwrap_err();
    assert!(matches!(err, ProfileSchemaError::ParseError(_)));
    assert!(err.to_string().starts_with("Failed to parse schema: Invalid JSON from u: "));
    let err = registry.insert_schema("u", "{\"type\": 99}").unwrap_err();
    assert_eq!(
        err,
        ProfileSchemaError::InvalidSchema(
            "Failed to compile schema for u: 99 is not valid under any of the schemas listed in \
             the 'anyOf' keyword"
                .to_string()
        )
    );
    assert!(!ok(&create_test_registry(), PROFILE_STR, "{"));
    assert_eq!(checked(Ok(())), Checked::Passed);
    assert_eq!(checked(Err(vec!["e".to_string()])), Checked::Failed(vec!["e".to_string()]));
}

fn ending(schema: &str) -> bool {
    has_ending_references(schema, "[1]")
}

#[test]
fn references_may_lead_back_where_the_value_gets_smaller() {
    let mut registry = ProfileSchemaRegistry::new();
    let tree = "{\"$id\": \"https://example.com/tree\", \"type\": \"object\", \
        \"properties\": {\"id\": {\"type\": \"string\"}, \
        \"children\": {\"type\": \"array\", \"items\": {\"$ref\": \"#\"}}}}";
    registry.insert_schema("tree", tree).unwrap();
    assert!(ok(&registry, "tree", "{\"children\": [{\"id\": \"a\", \"children\": []}]}"));
    assert_eq!(
        registry.validate_cached("tree", "{\"children\": [{\"children\": [1]}]}"),
        Checked::Failed(vec!["1 is not of type \"object\"".to_string()])
    );
    let list = "{\"$ref\": \"#/definitions/list\", \"definitions\": {\"list\": \
        {\"properties\": {\"next\": {\"$ref\": \"#/definitions/list\"}, \
        \"items\": {\"$ref\": \"#/definitions/count\"}}}, \"count\": {\"type\": \"integer\"}}}";
    registry.insert_schema("list", list).unwrap();
    assert!(ok(&registry, "list", "{\"next\": {\"next\": {\"items\": 3}}}"));
    assert!(!ok(&registry, "list", "{\"next\": {\"next\": {\"items\": \"x\"}}}"));
    // What is chosen by the name of a member, and what is nested deep, is not.
    assert!(!ending("{\"dependencies\": {\"items\": {\"$ref\": \"#\"}}}"));
    assert!(!ending("{\"items\": {\"allOf\": [{\"$id\": \"x\"}, {\"$ref\": \"#\"}]}}"));
    assert!(!ending("{\"items\": {\"allOf\": [{\"$ref\": \"#/items\"}]}}"));
    let deep = format!("{}1{}", "[".repeat(100), "]".repeat(100));
    assert!(has_ending_references("{\"items\": {\"$ref\": \"#\"}}", &deep));
    assert!(!has_ending_references("{\"items\": {\"not\": {\"items\": {\"$ref\": \"#\"}}}}", &deep));
    assert_eq!(nesting_of("[{\"a\": \"[[\"}, []]"), 2);
    assert_eq!(bearing_members("{\"a\": {\"items\": {\"b\": 1}, \"c\": 2}}", true).len(), 2);
}

#[test]
fn references_are_followed_unless_they_lead_back() {
    let mut registry = ProfileSchemaRegistry::new();
    registry.insert_schema("self", "{\"$ref\": \"#\"}").unwrap();
    assert_eq!(registry.validate_cached("self", "1"), Checked::LeftToCaller);
    let loops = "{\"allOf\": [{\"$ref\": \"#/definitions/a\"}], \"definitions\": \
        {\"a\": {\"$ref\": \"#/definitions/b\"}, \"b\": {\"$ref\": \"#/definitions/a\"}}}";
    registry.insert_schema("loop", loops).unwrap();
    assert_eq!(registry.validate_cached("loop", "1"), Checked::LeftToCaller);
    let ends = "{\"definitions\": {\"word\": {\"type\": \"string\", \"pattern\": \"^\\\\w+$\"}, \
        \"words\": {\"type\": \"array\", \"items\": {\"$ref\": \"#/definitions/word\"}}}, \
        \"properties\": {\"title\": {\"$ref\": \"#/definitions/word\"}, \
        \"tags\": {\"$ref\": \"#/definitions/words\"}}}";
    registry.insert_schema("ends", ends).unwrap();
    assert!(ok(&registry, "ends", "{\"title\": \"a\", \"tags\": [\"b\"]}"));
    assert_eq!(
        registry.validate_cached("ends", "{\"title\": 1, \"tags\": [\"b\", 2]}"),
        Checked::Failed(vec![
            "2 is not of type \"string\"".to_string(),
            "1 is not of type \"string\"".to_string(),
        ])
    );
    assert!(!ending("{\"\\u0024ref\": \"#\"}"));
    assert!(!ending("{\"$ref\": \"other.json\"}"));
    assert!(!ending("{\"$ref\": \"#/allOf/0\"}"));
    assert!(!ending(
        "{\"a\": {\"$id\": \"#/x/y\"}, \"b\": {\"$ref\": \"#/x/y\"}}"
    ));
    let with_id = |id: &str| {
        ending(&format!(
            "{{\"$id\": \"{id}\", \"a\": {{\"$ref\": \"#/definitions/b\"}}}}"
        ))
    };
    assert!(with_id("https://example.com/Schema#"));
    assert!(!with_id("#\\/definitions\\/b"));
    assert!(!with_id("http://JSON-schema.org/draft-07/schema#"));
    assert!(ending("{\"$schema\": \"x\", \"type\": \"string\"}"));
    assert!(ending("{\"title\": \"a $ref \\u2014 no m\\u00eamber\"}"));
}

#[test]
fn the_members_of_a_schema_are_found_at_every_depth() {
    let found = members_of("{\"a\" : [1, {\"b\\\"\":\"x,}\"}], \"c\":2}");
    let expected =
        [("a", " [1, {\"b\\\"\":\"x,}\"}]"), ("b\\\"", "\"x,}\""), ("c", "2")];
    let expected: Vec<(String, String)> =
        expected.iter().map(|(k, v)| (k.to_string(), v.to_string())).collect();
    assert_eq!(found, expected);
}

#[test]
fn distinct_items_are_asked_for() {
    let mut registry = ProfileSchemaRegistry::new();
    registry.insert_schema("u", "{\"uniqueItems\": true}").unwrap();
    assert!(ok(&registry, "u", "[1, 2, 3]"));
    assert!(!ok(&registry, "u", "[1, 2, 1]"));
    assert!(!ok(&registry, "u", "[-1, -1]"));
    registry.insert_schema("t", "{\"uniqueItems\": true, \"items\": {\"type\": \"string\"}}").unwrap();
    assert_eq!(
        registry.validate_cached("t", "[\"a-b\", 1]"),
        Checked::Failed(vec!["1 is not of type \"string\"".to_string()])
    );
}

#[test]
fn the_strings_of_a_text_are_found_as_they_are_written() {
    assert_eq!(
        strings_of("{\"a\\\"\": [\"b\", 1, \"\"]}"),
        vec!["a\\\"".to_string(), "b".to_string(), String::new()]
    );
}

#[test]
fn patterns_that_are_not_safe_to_build_are_left_to_the_caller() {
    let schema = |pattern: &str| format!("{{\"pattern\": \"{pattern}\"}}");
    assert!(has_buildable_patterns(&schema("^[0-9]{4}-[0-9]{2}-[0-9]{2}$")));
    assert!(has_buildable_patterns(&schema("(?=a)(?:b){2,}(?<n>c)(?P<m>d)")));
    assert!(!has_buildable_patterns(&schema("aa{18446744073709551615}")));
    assert!(!has_buildable_patterns(&schema("(?:(?:a{65536}){65536}){65536}")));
    assert!(!has_buildable_patterns(&schema("(?x)a")));
    assert!(!has_buildable_patterns(&schema("(?#c)a")));
    assert!(!has_buildable_patterns(&schema("(a)\\\\k<1>")));
    assert!(!has_buildable_patterns(&schema("a\\u007b9}")));
    let mut registry = ProfileSchemaRegistry::new();
    let huge = schema("aa{18446744073709551615}");
    assert_eq!(
        registry.insert_schema("u", &huge),
        Err(ProfileSchemaError::LeftToCaller("u".to_string()))
    );
    assert!(!registry.schema_exists("u"));
    assert_eq!(registry.load_entry("u", &huge, 0, 1, 10), Loaded::LeftToCaller);
    // What the caller found out is taken over.
    let flagged = schema("(?i)a");
    let refused = registry.keep_judged("u", &flagged, "No: ", Ok(()), Err("bad".to_string()));
    assert_eq!(refused, Err(ProfileSchemaError::InvalidSchema("No: u: bad".to_string())));
    let unread = registry.keep_judged("u", "{", "No: ", Err("eof".to_string()), Ok(()));
    assert_eq!(unread, Err(ProfileSchemaError::ParseError("Invalid JSON from u: eof".to_string())));
    registry.keep_judged("u", &flagged, "No: ", Ok(()), Ok(())).unwrap();
    assert!(registry.schema_exists("u"));
    assert_eq!(registry.validate_cached("u", "\"A\""), Checked::LeftToCaller);
}

#[test]
fn patterns_that_go_back_are_left_to_the_caller() {
    let mut registry = ProfileSchemaRegistry::new();
    for pattern in [
        "(?:x(a\\\\1|b))+",
        "((?=a)){3}",
        "\\\\bword",
        "a++",
        "(?>a)b",
    ] {
        let schema = format!("{{\"pattern\": \"{pattern}\"}}");
        assert!(!has_plain_patterns(&schema), "{pattern}");
        registry.insert_schema("u", &schema).unwrap();
        assert_eq!(registry.validate_cached("u", "\"xbxa\""), Checked::LeftToCaller, "{pattern}");
    }
    registry.insert_schema("u", "{\"pattern\": \"^\\\\d{3}(?:a|b)+$\"}").unwrap();
    assert!(ok(&registry, "u", "\"123ab\""));
    assert!(!ok(&registry, "u", "\"12ab\""));
    // Where a value may be asked to be a pattern, it has to be safe as well.
    registry.insert_schema("r", "{\"format\": \"regex\"}").unwrap();
    assert!(ok(&registry, "r", "\"a+\""));
    assert!(!ok(&registry, "r", "\"(\""));
    assert!(is_safe_to_check("{\"format\": \"regex\"}", "\"a\""));
    assert_eq!(
        registry.validate_cached("r", "\"aa{18446744073709551615}\""),
        Checked::LeftToCaller
    );
}

#[test]
fn cached_schemas_expire_and_offline_registries_do_not_fetch() {
    let mut registry = ProfileSchemaRegistry::new();
    let body = schema_body(PROFILE_STR);
    assert_eq!(registry.load_entry(PROFILE_STR, &body, 0, 1, 3601), Loaded::Expired);
    assert_eq!(registry.load_entry(PROFILE_STR, "{\"type\": 99}", 0, 1, 10), Loaded::Skipped);
    assert!(!registry.schema_exists(PROFILE_STR));
    assert_eq!(registry.load_entry(PROFILE_STR, &body, 0, 1, 3600), Loaded::Kept);
    assert!(registry.schema_exists(PROFILE_STR));
    assert!(registry.fetch_allowed("u").is_ok());
    registry.set_offline(true);
    assert!(matches!(registry.fetch_allowed("u"), Err(ProfileSchemaError::NetworkBlocked(_))));
    // The start of the SHA-256 of the empty text.
    assert_eq!(cache_file_name(""), "e3b0c44298fc1c14.json");
}

#[test]
fn answers_to_fetches_become_schemas_or_errors() {
    let mut registry = ProfileSchemaRegistry::new();
    let mut text = |reply: Reply<String>| match registry.admit_reply("u", reply) {
        Ok(()) => "ok".to_string(),
        Err(e) => e.to_string(),
    };
    assert_eq!(
        text(Reply::Failed("down".to_string())),
        "HTTP error: Failed to fetch schema from u: down"
    );
    assert_eq!(
        text(Reply::Status("404 Not Found".to_string())),
        "Schema not found: Schema not found at u (HTTP 404 Not Found)"
    );
    assert_eq!(
        text(Reply::Unreadable("eof".to_string())),
        "HTTP error: Failed to read response from u: eof"
    );
    assert!(text(Reply::Body("{".to_string())).starts_with("Failed to parse schema: "));
    assert!(text(Reply::Body("{\"type\": 99}".to_string()))
        .starts_with("Invalid JSON Schema: Invalid JSON Schema from u: "));
    assert_eq!(text(Reply::Body("{\"type\": \"string\"}".to_string())), "ok");
    assert!(registry.schema_exists("u"));
}

#[test]
fn a_definition_holds_what_it_was_made_with() {
    let plain = MediaDef::with_schema(
        "media:x",
        "application/json",
        "X",
        "https://example.com/x",
        "{\"type\":\"object\"}".to_string(),
    );
    assert_eq!(plain.profile_uri.as_deref(), Some("https://example.com/x"));
    assert_eq!(plain.schema.as_deref(), Some("{\"type\":\"object\"}"));
    assert!(plain.validation.is_none());
    let checked = MediaDef::with_validation("media:y", "text/plain", "Y", no_validation());
    assert!(checked.schema.is_none());
    assert!(checked.validation.is_some());
}
