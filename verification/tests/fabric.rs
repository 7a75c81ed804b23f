//! Aliases, URNs and the registry of definitions.

use capdag::fabric::alias::{
    classify_alias_target, is_alias_token, normalize_alias_name, token_is_urn, AliasNameError,
    AliasTargetKind, StoredAlias,
};
use capdag::fabric::registry::{
    cap_url_and_cache_path, is_expired, keeps_cached, manifest_url, media_url_and_cache_path,
    normalize_cap_urn, normalize_media_urn, read_cap_reply, read_manifest_reply, referenced_media_urns,
    validate_cap,
    ArgSource, Cap, CapArg, FabricRegistry, FabricRegistryError, FetchKey, Located, Manifest,
    RegistryConfig, Reply, StoredMediaDef,
};
use capdag::text_map::TextMap;
use capdag::urn::{CapUrn, MediaUrn};

#[test]
fn test1880_alias_name_normalization_rules() {
    assert_eq!(normalize_alias_name("JSONDoc").unwrap(), "jsondoc");
    assert_eq!(normalize_alias_name("pdf2text").unwrap(), "pdf2text");
    assert_eq!(normalize_alias_name("my.alias-1_x").unwrap(), "my.alias-1_x");

    assert!(matches!(normalize_alias_name(""), Err(AliasNameError::Empty)));
    assert!(matches!(normalize_alias_name("pdf:text"), Err(AliasNameError::ContainsColon(_))));
    assert!(matches!(
        normalize_alias_name("my alias"),
        Err(AliasNameError::ContainsWhitespace(_))
    ));
    assert!(matches!(normalize_alias_name("a/b"), Err(AliasNameError::InvalidChar { .. })));
}

#[test]
fn test1881_token_urn_vs_alias_detection() {
    assert!(token_is_urn("cap:in=\"media:ext=pdf\";extract;out=\"media:enc=utf-8\""));
    assert!(token_is_urn("media:fmt=json;record"));
    assert!(!token_is_urn("pdf2text"));
    assert!(is_alias_token("pdf2text"));
    assert!(!is_alias_token("media:enc=utf-8"));
}

#[test]
fn test1882_classify_alias_target_by_prefix() {
    assert_eq!(classify_alias_target("media:fmt=json;record"), Some(AliasTargetKind::Media));
    assert_eq!(
        classify_alias_target(
            "cap:effect=patch;in=\"media:image\";name;out=\"media:ext=png;image\""
        ),
        Some(AliasTargetKind::Cap)
    );
    assert_eq!(classify_alias_target("not-a-urn"), None);
}

#[test]
fn bad_alias_names_are_explained() {
    let text = |name: &str| normalize_alias_name(name).unwrap_err().to_string();
    assert!(text("a/b").contains("'/'"), "got: {}", text("a/b"));
    assert!(text("a:b").contains("a:b"));
    // A line break is shown as an escape.
    assert!(normalize_alias_name("a\u{7f}b").unwrap_err().to_string().contains("\\u{7f}"));
    assert_eq!(AliasTargetKind::Cap.as_str(), "cap");
    assert_eq!(AliasTargetKind::Media.as_str(), "media");
}

// ---------------------------------------------------------------------------
// URNs
// ---------------------------------------------------------------------------

#[test]
fn canonical_urns_are_sorted_and_read_back() {
    let m = MediaUrn::from_string("MEDIA:Record;Fmt=json;Enc=utf-8").unwrap();
    assert_eq!(m.to_string(), "media:enc=utf-8;fmt=json;record");
    assert!(MediaUrn::from_string(&m.to_string()).unwrap().is_equivalent(&m));
    let c = CapUrn::from_string("cap:out=\"media:record\";in=\"media:ext=pdf\";extract").unwrap();
    assert_eq!(c.to_string(), "cap:extract;in=\"media:ext=pdf\";out=media:record");
    assert_eq!(c.in_spec(), "media:ext=pdf");
    assert_eq!(c.out_spec(), "media:record");
    assert!(MediaUrn::from_string("cap:x").is_err());
    assert!(MediaUrn::from_string("media:a;a").is_err());
    assert!(CapUrn::from_string("cap:in=nonsense").is_err());
    assert_eq!(CapUrn::from_string("cap:x").unwrap().in_spec(), "media:");
}

#[test]
fn patterns_accept_what_meets_every_tag() {
    let m = |s: &str| MediaUrn::from_string(s).unwrap();
    assert!(m("media:").accepts(&m("media:record")));
    assert!(m("media:record").accepts(&m("media:enc=utf-8;record")));
    assert!(!m("media:enc=utf-8;record").accepts(&m("media:record")));
    assert!(m("media:enc=*").accepts(&m("media:enc=utf-8")));
    assert!(!m("media:enc=!").accepts(&m("media:enc=utf-8")));
    assert!(m("media:enc=!").accepts(&m("media:record")));
    assert!(m("media:enc=?").accepts(&m("media:record")));
    assert!(m("media:enc=utf-8").conforms_to(&m("media:enc=*")));
    assert_eq!(m("media:a;b=x;c=*;d=!;e=?").specificity(), 3 + 3 + 2 + 1);
    assert!(m("media:a").has_tag("a"));
}

// ---------------------------------------------------------------------------
// The registry
// ---------------------------------------------------------------------------

fn cap(urn: &str, stdin: Option<&str>, output: Option<&str>) -> Cap {
    Cap {
        urn: CapUrn::from_string(urn).unwrap(),
        version: 0,
        title: "A cap".to_string(),
        aliases: Vec::new(),
        command: "run".to_string(),
        args: match stdin {
            Some(s) => vec![CapArg {
                media_urn: s.to_string(),
                sources: vec![ArgSource::Stdin { stdin: s.to_string() }],
            }],
            None => Vec::new(),
        },
        output: output.map(|s| s.to_string()),
        input_is_sequence: false,
        output_is_sequence: false,
    }
}

fn media_def(urn: &str, extensions: &[&str]) -> StoredMediaDef {
    StoredMediaDef {
        urn: urn.to_string(),
        version: 0,
        media_type: "text/plain".to_string(),
        title: "A type".to_string(),
        profile_uri: None,
        schema: None,
        description: None,
        documentation: None,
        validation: None,
        metadata: None,
        extensions: extensions.iter().map(|s| s.to_string()).collect(),
    }
}

fn registry(version: u32, manifest: Manifest) -> FabricRegistry {
    FabricRegistry::from_caches(
        RegistryConfig::new(Some("https://f.test".to_string()), None),
        version,
        manifest,
        TextMap::new(),
        TextMap::new(),
        cap("cap:effect=none", None, None),
        true,
    )
}

#[test]
fn the_identity_cap_is_always_there() {
    let mut r = registry(0, Manifest::empty(0));
    assert!(r.get_cached_cap_in_memory("cap:effect=none").is_some());
    r.clear_cache();
    assert!(r.get_cached_cap_in_memory("cap:effect=none").is_none());
    r.ensure_identity_cap(cap("cap:effect=none", None, None));
    assert!(r.get_cached_cap_in_memory("cap:effect=none").is_some());
}

#[test]
fn definitions_are_found_by_any_form_of_their_urn() {
    let mut r = registry(0, Manifest::empty(0));
    r.add_caps_to_cache(vec![cap("cap:x;in=\"media:a\";out=\"media:b\"", None, None)]);
    assert!(r.get_cached_cap_in_memory("cap:out=media:b;in=media:a;x").is_some());
    assert!(matches!(r.locate_cap("cap:out=media:b;in=media:a;x"), Located::Cached));
    r.insert_cached_media_def_for_test(media_def("media:a;b", &["TXT"]));
    assert!(r.get_cached_media_def_in_memory("media:b;a").is_some());
    assert_eq!(r.media_urns_for_extension("Txt").unwrap(), vec!["media:a;b"]);
    assert!(matches!(
        r.media_urns_for_extension("pdf"),
        Err(FabricRegistryError::ExtensionNotFound(_))
    ));
    assert!(r.is_bookend("media:b;a"));
    assert_eq!(r.bookend_urns().len(), 1);
    assert_eq!(r.get_extension_mappings().len(), 1);
    assert_eq!(normalize_media_urn("media:b;a"), "media:a;b");
    assert_eq!(normalize_cap_urn("not a urn"), "not a urn");
}

#[test]
fn what_is_not_in_the_snapshot_is_not_found() {
    let mut manifest = Manifest::empty(3);
    manifest.caps.insert("cap:x".to_string(), 7);
    let r = registry(3, manifest);
    assert_eq!(r.cap_defver("cap:x").unwrap(), 7);
    assert!(matches!(r.locate_cap("cap:x"), Located::Fetch { defver: 7, .. }));
    assert!(matches!(r.locate_cap("cap:y"), Located::Unknown(FabricRegistryError::NotFound(_))));
    assert!(matches!(r.media_defver("media:x"), Err(FabricRegistryError::NotFound(_))));
    assert_eq!(r.manifest_version(), 3);
    let unversioned = registry(0, Manifest::empty(0));
    assert_eq!(unversioned.cap_defver("cap:y").unwrap(), 0);
}

#[test]
fn an_offline_registry_fetches_nothing() {
    let mut r = registry(0, Manifest::empty(0));
    assert!(r.cap_fetch_request("cap:x", 0).is_ok());
    r.set_offline(true);
    assert!(matches!(
        r.cap_fetch_request("cap:x", 0),
        Err(FabricRegistryError::NetworkBlocked(_))
    ));
    assert!(matches!(
        r.media_fetch_request("media:x", 0),
        Err(FabricRegistryError::NetworkBlocked(_))
    ));
}

#[test]
fn a_cap_is_admitted_with_the_media_that_it_names() {
    let mut r = registry(0, Manifest::empty(0));
    let c = cap("cap:x;in=\"media:a\";out=\"media:b\"", Some("media:a"), Some("media:b"));
    assert_eq!(referenced_media_urns(&c).len(), 2);
    let mut fetched = Vec::new();
    while let Some((urn, _)) = r.next_missing_media("cap:x", &c, &fetched).unwrap() {
        let def = media_def(&urn, &["Ext"]);
        fetched.push((urn, def));
    }
    assert_eq!(fetched.len(), 2);
    // What was fetched is nowhere before the cap is admitted.
    assert!(r.get_cached_media_def_in_memory("media:a").is_none());
    let urn = c.urn_string();
    assert!(r.admit_fetched(&urn, c, fetched));
    assert!(r.get_cached_cap_in_memory(&urn).is_some());
    assert!(r.get_cached_media_def_in_memory("media:b").is_some());
    assert_eq!(r.media_urns_for_extension("ext").unwrap(), vec!["media:a", "media:b"]);
    assert_eq!(r.revision, 3);
}

#[test]
fn a_cap_fetch_that_fails_writes_nothing() {
    let mut r = registry(0, Manifest::empty(0));
    let c = cap("cap:x;in=\"media:a\";out=\"media:b\"", None, None);
    let urn = c.urn_string();
    let fetched = vec![("media:a".to_string(), media_def("media:a", &["txt"]))];
    assert_eq!(
        r.next_missing_media(&urn, &c, &fetched).unwrap(),
        Some(("media:b".to_string(), 0))
    );
    assert!(!r.admit_fetched(&urn, c, fetched));
    assert!(r.get_cached_cap_in_memory(&urn).is_none());
    assert!(r.get_cached_media_def_in_memory("media:a").is_none());
    assert!(r.media_urns_for_extension("txt").is_err());
    assert_eq!(r.revision, 0);
}

#[test]
fn a_snapshot_that_is_not_to_be_had_is_not_found() {
    let read = |reply: Reply<Manifest>| read_manifest_reply(3, "u", reply);
    assert_eq!(read(Reply::Body(Manifest::empty(3))).unwrap().version, 3);
    assert_eq!(
        read(Reply::Failed("down".to_string())).unwrap_err(),
        FabricRegistryError::NotFound("Failed to fetch manifest v3 at u: down".to_string())
    );
    assert_eq!(
        read(Reply::Status("404 Not Found".to_string())).unwrap_err(),
        FabricRegistryError::NotFound(
            "Manifest v3 not found in registry (HTTP 404 Not Found) at u".to_string()
        )
    );
    assert_eq!(
        read(Reply::Unreadable("eof".to_string())).unwrap_err(),
        FabricRegistryError::ParseError("Failed to parse manifest v3: eof".to_string())
    );
    assert_eq!(
        read(Reply::Body(Manifest::empty(2))).unwrap_err(),
        FabricRegistryError::ParseError("Manifest fetched as v3 reports version 2".to_string())
    );
}

#[test]
fn a_definition_is_queued_once() {
    let mut r = registry(0, Manifest::empty(0));
    assert!(r.request_cap_cache_hydration("cap:x"));
    assert!(!r.request_cap_cache_hydration("cap:x"));
    let key = FetchKey::Cap { urn: "cap:x".to_string(), defver: 0 };
    assert!(r.queued_fetch_needed(&key));
    assert!(!r.enqueue_for_background_fetch(FetchKey::Cap { urn: "cap:x".to_string(), defver: 0 }));
    r.finish_queued_fetch(&key);
    assert!(r.enqueue_for_background_fetch(key));
}

#[test]
fn the_shown_alias_is_the_shortest_then_the_first() {
    let mut r = registry(0, Manifest::empty(0));
    for name in ["extract-pdf", "ex", "ax"] {
        r.insert_cached_alias_for_test(StoredAlias {
            name: name.to_string(),
            target: "cap:x".to_string(),
            version: 1,
        });
    }
    assert_eq!(r.display_alias_for_urn("cap:x").as_deref(), Some("ax"));
    assert_eq!(r.display_alias_for_urn("cap:y"), None);
}

#[test]
fn addresses_and_cache_places_follow_the_version() {
    let config = RegistryConfig::new(Some("https://f.test".to_string()), None)
        .with_registry_url("https://g.test");
    assert!(config.registry_base_url.starts_with("https://g.test"));
    let plain = cap_url_and_cache_path(&config, "cap:x", 0);
    let versioned = cap_url_and_cache_path(&config, "cap:x", 4);
    assert_ne!(plain.url, versioned.url);
    assert_ne!(plain.path, versioned.path);
    assert!(versioned.url.starts_with("https://g.test"));
    let media = media_url_and_cache_path(&config, "media:x", 4);
    assert_ne!(media.url, versioned.url);
    assert!(manifest_url(&config, 9).contains('9'));
    assert!(!is_expired(100, 1, 3700));
    assert!(is_expired(100, 1, 3701));
    assert!(keeps_cached(1, 0, 1, u64::MAX));
    assert!(!keeps_cached(0, 0, 1, 3601));
}

#[test]
fn replies_become_definitions_or_errors() {
    let name = |r: Result<Cap, FabricRegistryError>| match r {
        Ok(_) => "ok",
        Err(FabricRegistryError::HttpError(_)) => "http",
        Err(FabricRegistryError::NotFound(_)) => "missing",
        Err(FabricRegistryError::ParseError(_)) => "parse",
        Err(_) => "other",
    };
    let read = |reply| name(read_cap_reply("cap:x", 0, "https://f.test/x", reply));
    assert_eq!(read(Reply::Failed("down".to_string())), "http");
    assert_eq!(read(Reply::Status("404 Not Found".to_string())), "missing");
    assert_eq!(read(Reply::Unreadable("eof".to_string())), "parse");
    assert_eq!(read(Reply::Body(cap("cap:x", None, None))), "ok");
}

#[test]
fn a_manifest_of_another_version_is_refused() {
    let m = Manifest::empty(4);
    assert!(m.check_version(4, None).is_ok());
    assert!(m.check_version(5, None).is_err());
    assert!(m.check_version(5, Some("/tmp/m.json")).is_err());
}

#[test]
fn local_caps_are_checked_against_the_canonical_ones() {
    let canonical = cap("cap:x", Some("media:a"), None);
    assert!(validate_cap(&cap("cap:x", Some("media:a"), None), &canonical).is_ok());
    let mut other = cap("cap:x", Some("media:a"), None);
    other.command = "walk".to_string();
    let err = validate_cap(&other, &canonical).unwrap_err();
    assert!(err.to_string().contains("walk"), "got: {}", err.to_string());
    let err = validate_cap(&cap("cap:x", None, None), &canonical).unwrap_err();
    assert!(err.to_string().contains("None"), "got: {}", err.to_string());
}

#[test]
fn versions_are_found_by_any_form_of_the_urn() {
    let mut manifest = Manifest::empty(3);
    manifest.caps.insert(normalize_cap_urn("cap:x;in=\"media:a\";out=\"media:b\""), 7);
    manifest.media.insert("media:a;b".to_string(), 5);
    let mut r = registry(3, manifest);
    assert_eq!(r.cap_defver_for("cap:out=media:b;in=media:a;x").unwrap(), 7);
    assert_eq!(r.media_defver_for("media:b;a").unwrap(), 5);
    assert_eq!(
        r.media_defver_for("media:z;c").unwrap_err(),
        FabricRegistryError::NotFound("media def 'media:c;z' is not part of manifest v3".to_string())
    );
    assert!(matches!(r.locate_media_def("media:b;a"), Located::Fetch { defver: 5, .. }));
    assert!(matches!(r.locate_media_def("media:z"), Located::Unknown(_)));
    r.insert_cached_media_def_for_test(media_def("media:a;b", &[]));
    assert!(matches!(r.locate_media_def("media:b;a"), Located::Cached));
}

#[test]
fn a_stored_definition_loses_only_its_version() {
    let mut stored = media_def("media:a;b", &["txt", "text"]);
    stored.version = 4;
    stored.schema = Some("{}".to_string());
    let def = stored.to_media_def_def();
    assert_eq!(def.urn, "media:a;b");
    assert_eq!(def.title, stored.title);
    assert_eq!(def.schema.as_deref(), Some("{}"));
    assert_eq!(def.extensions, vec!["txt", "text"]);
}
