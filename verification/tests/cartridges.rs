//! Finding cartridges, and developing them.

use capdag::build_env::{
    fabric_manifest_version, provider_digest, read_providers, PinError, ProviderDigest,
    ProviderError,
};
use capdag::cartridge_discovery::{
    conclude, examine, newest_version, validate_registry_url_scheme, CartridgeAttachmentErrorKind,
    CartridgeChannel, CartridgeJson, DiscoveredCartridge, DiscoveryIdentity, Examined,
    RegistryUrlSchemeResult,
};
use capdag::dev::{
    check_no_fabric_conflict, dev_version_dir, find_dev_cap_by_alias, io_err,
    is_ignored_project_entry, project_entry, python_cartridge_source, read_entry_manifest,
    run_alias, scaffold_python_cartridge, stage_dev_cartridge, valid_cartridge_name, CapGroup,
    CapManifest, CartridgeInstallSource, DevError, EntryOutput, PYTHON_ENTRY,
};
use capdag::fabric::registry::Cap;
use capdag::urn::CapUrn;
use capdag::version::is_older;

fn nightly_dev_identity() -> DiscoveryIdentity {
    DiscoveryIdentity {
        channel: CartridgeChannel::Nightly,
        registry_url: None,
        fabric_manifest_version: 1,
    }
}

fn cartridge(channel: CartridgeChannel, version: u32, registry_url: Option<&str>) -> CartridgeJson {
    CartridgeJson {
        name: "cart".to_string(),
        version: "1.0.0".to_string(),
        channel,
        registry_url: registry_url.map(|s| s.to_string()),
        entry: "cart".to_string(),
        fabric_manifest_version: version,
    }
}

/// Reads a cartridge as it lies below a folder.
fn loaded(cj: CartridgeJson, folder: &str) -> Result<CartridgeJson, String> {
    match cj.check_slug(folder) {
        Ok(()) => Ok(cj),
        Err(e) => Err(e),
    }
}

fn kind_of(identity: &DiscoveryIdentity, read: Result<CartridgeJson, String>) -> Option<CartridgeAttachmentErrorKind> {
    match examine::<u8>(identity, "/root/v", "cart", "1.0.0", read, 9) {
        Examined::Probe(_) => None,
        Examined::Rejected(DiscoveredCartridge::Incompatible { error, .. }) => {
            assert_eq!(error.detected_at_unix_seconds, 9);
            Some(error.kind)
        }
        Examined::Rejected(other) => panic!("a rejected cartridge is incompatible, got {other:?}"),
    }
}

#[test]
fn test999_missing_cartridge_json_is_manifest_invalid() {
    let kind = kind_of(&nightly_dev_identity(), Err("no such file".to_string()));
    assert_eq!(kind, Some(CartridgeAttachmentErrorKind::ManifestInvalid));
}

#[test]
fn test999_channel_mismatch_is_bad_installation() {
    let cj = cartridge(CartridgeChannel::Release, 1, None);
    let kind = kind_of(&nightly_dev_identity(), loaded(cj, "dev"));
    assert_eq!(kind, Some(CartridgeAttachmentErrorKind::BadInstallation));
}

#[test]
fn test999_fabric_manifest_mismatch_is_flagged() {
    let cj = cartridge(CartridgeChannel::Nightly, 999, None);
    let kind = kind_of(&nightly_dev_identity(), loaded(cj, "dev"));
    assert_eq!(kind, Some(CartridgeAttachmentErrorKind::FabricManifestVersionMismatch));
}

#[test]
fn test999_registry_url_under_dev_slug_is_rejected() {
    let cj = cartridge(
        CartridgeChannel::Nightly,
        1,
        Some("https://cartridges.example.com/manifest"),
    );
    let kind = kind_of(&nightly_dev_identity(), loaded(cj, "dev"));
    assert_eq!(kind, Some(CartridgeAttachmentErrorKind::ManifestInvalid));
}

#[test]
fn a_cartridge_that_agrees_is_probed() {
    let identity = nightly_dev_identity();
    assert_eq!(identity.slug(), "dev");
    assert!(identity.dev_mode());
    assert_eq!(identity.scan_path(), vec!["dev", "nightly"]);
    let cj = cartridge(CartridgeChannel::Nightly, 1, None);
    assert_eq!(kind_of(&identity, loaded(cj, "dev")), None);
    let cj = cartridge(CartridgeChannel::Nightly, 1, None);
    match conclude("/v", "/v/cart", cj, Ok(vec![7u8]), 1) {
        DiscoveredCartridge::Directory { cap_groups, id, .. } => {
            assert_eq!((cap_groups, id), (vec![7], "cart".to_string()));
        }
        other => panic!("expected a directory, got {other:?}"),
    }
    let cj = cartridge(CartridgeChannel::Nightly, 1, None);
    match conclude::<u8>("/v", "/v/cart", cj, Err("crashed".to_string()), 1) {
        DiscoveredCartridge::Incompatible { error, .. } => {
            assert_eq!(error.kind, CartridgeAttachmentErrorKind::HandshakeFailed);
            assert_eq!(
                error.message,
                "HELLO handshake / cap discovery probe failed: crashed"
            );
        }
        other => panic!("expected an incompatible cartridge, got {other:?}"),
    }
}

#[test]
fn registry_addresses_are_https_outside_development() {
    assert_eq!(validate_registry_url_scheme("https://r.test", false), RegistryUrlSchemeResult::Accepted);
    assert!(matches!(
        validate_registry_url_scheme("http://r.test", false),
        RegistryUrlSchemeResult::NonHttps { scheme } if scheme == "http"
    ));
    assert_eq!(validate_registry_url_scheme("http://r.test", true), RegistryUrlSchemeResult::Accepted);
    assert!(matches!(
        validate_registry_url_scheme("nonsense", false),
        RegistryUrlSchemeResult::NotAUrl(_)
    ));
}

#[test]
fn the_newest_version_is_taken() {
    let newest = |names: &[&str]| {
        newest_version(&names.iter().map(|s| s.to_string()).collect::<Vec<String>>())
    };
    assert_eq!(newest(&["1.0.0", "1.2.0", "1.10.0"]), Some(2));
    assert_eq!(newest(&["9.0.0", "10.0.0"]), Some(1));
    assert_eq!(newest(&["0.301.2", "0.301.2", "0.99.4"]), Some(0));
    assert_eq!(newest(&["1.10-rc1", "1.9-rc2"]), Some(0));
    assert_eq!(newest(&["1.beta", "1.alpha"]), Some(0));
    assert_eq!(newest(&["1", "1.0"]), Some(1));
    assert_eq!(newest(&[]), None);
}

#[test]
fn versions_are_compared_by_their_numbers() {
    assert!(is_older("1.9", "1.10") && !is_older("1.10", "1.9"));
    assert!(is_older("99999999999999999999998", "99999999999999999999999"));
    assert!(is_older("1.007", "1.10"));
    assert!(is_older("1.02", "1.2"));
    assert!(is_older("1.0", "1.beta"));
    assert!(!is_older("1.0", "1.0"));
}

// ---------------------------------------------------------------------------
// Development
// ---------------------------------------------------------------------------

#[test]
fn test8100_scaffold_python_cartridge_shape() {
    let proj = scaffold_python_cartridge("mood-tagger", "/tmp/root", false).unwrap();
    assert_eq!(proj.project_dir, "/tmp/root/mood-tagger");

    assert_eq!(proj.files[0].path, format!("/tmp/root/mood-tagger/{PYTHON_ENTRY}"));
    let src = &proj.files[0].content;
    assert!(src.contains("name=\"mood-tagger\""), "manifest name substituted");
    assert!(src.contains("[\"mood-tagger\"]"), "cap alias seeded from name");
    assert!(src.contains("media:enc=utf-8;mood-tagger-input"), "input media uses enc=utf-8");
    assert!(!src.contains("command="), "no removed `command=` field");
    assert!(!src.contains("textable"), "no removed `textable` marker");
    assert!(!src.contains("__CARTRIDGE_NAME__"));
    assert_eq!(proj.files[1].path, "/tmp/root/mood-tagger/README.md");
    assert!(proj.files[1].content.starts_with("# mood-tagger\n\nA MachineFabric cartridge"));
    assert_eq!(proj.files[2].path, "/tmp/root/mood-tagger/.gitignore");
    assert!(proj.files[0].executable, "entry is executable");
    assert!(!proj.files[1].executable);
}

#[test]
fn test8101_scaffold_guards() {
    assert!(matches!(
        scaffold_python_cartridge("Bad Name", "/tmp", false),
        Err(DevError::InvalidName(_))
    ));
    scaffold_python_cartridge("greeter", "/tmp", false).unwrap();
    assert!(matches!(
        scaffold_python_cartridge("greeter", "/tmp", true),
        Err(DevError::AlreadyExists(_))
    ));
}

fn cap(urn: &str, alias: &str) -> Cap {
    Cap {
        urn: CapUrn::from_string(urn).unwrap(),
        version: 0,
        title: alias.to_string(),
        aliases: vec![alias.to_string()],
        command: String::new(),
        args: Vec::new(),
        output: None,
        input_is_sequence: false,
        output_is_sequence: false,
    }
}

fn manifest(registry_url: Option<&str>) -> CapManifest {
    CapManifest {
        name: "greeter".to_string(),
        version: "0.1.0".to_string(),
        channel: CartridgeChannel::Nightly,
        registry_url: registry_url.map(|s| s.to_string()),
        cap_groups: vec![
            CapGroup { name: "none".to_string(), caps: Vec::new() },
            CapGroup {
                name: "default".to_string(),
                caps: vec![
                    cap("cap:effect=none", "identity"),
                    cap(
                        "cap:greet;in=\"media:enc=utf-8\";out=\"media:enc=utf-8;greeting\"",
                        "greet",
                    ),
                ],
            },
        ],
    }
}

#[test]
fn test8102_dev_install_and_find_by_alias() {
    let entry = project_entry("/work/proj", true).unwrap();
    assert_eq!(entry, "/work/proj/cartridge.py");
    let printed = EntryOutput {
        success: true,
        code: Some(0),
        stdout: b"{}".to_vec(),
        stderr: Vec::new(),
    };
    assert_eq!(read_entry_manifest(&entry, Ok(printed)), Ok(b"{}".to_vec()));
    let manifest = manifest(None);
    assert!(manifest.registry_url.is_none());

    let staged = stage_dev_cartridge(&manifest, "/home/u/cartridges", 1, 7, 12345).unwrap();
    assert_eq!(staged.version_dir, "/home/u/cartridges/dev/v1/nightly/greeter/0.1.0");
    assert_eq!(staged.record.cartridge.entry, PYTHON_ENTRY);
    assert_eq!(staged.record.cartridge.fabric_manifest_version, 7);
    assert_eq!(staged.record.installed_at, "12345Z");
    assert_eq!(staged.record.installed_from, Some(CartridgeInstallSource::Dev));
    assert_eq!(CartridgeInstallSource::Dev.as_str(), "dev");

    let found = find_dev_cap_by_alias(&manifest, "greet").expect("dev cap resolvable by alias");
    assert!(found.get_aliases().iter().any(|a| a == "greet"));
    assert!(find_dev_cap_by_alias(&manifest, "nope").is_none());
    assert_eq!(run_alias(&manifest).as_deref(), Some("greet"));
}

#[test]
fn test8103_dev_install_rejects_published_manifest() {
    let manifest = manifest(Some("https://cartridges.example.com/v1/manifest"));
    assert!(matches!(
        stage_dev_cartridge(&manifest, "/c", 1, 7, 0),
        Err(DevError::NotDev { .. })
    ));
}

#[test]
fn test8104_fabric_conflict_guard() {
    let alpha = cap("cap:alpha;in=\"media:enc=utf-8\";out=\"media:enc=utf-8;alpha\"", "alpha");
    let alpha_urn = alpha.urn_string();

    let clashing = cap("cap:beta;in=\"media:enc=utf-8\";out=\"media:enc=utf-8;beta\"", "alpha");
    assert!(matches!(
        check_no_fabric_conflict(&clashing, &vec![Some(alpha_urn.clone())]),
        Err(DevError::FabricConflict { .. })
    ));

    let fresh = cap("cap:gamma;in=\"media:enc=utf-8\";out=\"media:enc=utf-8;gamma\"", "gamma");
    assert!(check_no_fabric_conflict(&fresh, &vec![None]).is_ok());

    assert!(check_no_fabric_conflict(&alpha, &vec![Some(alpha_urn)]).is_ok());
    // Another way to write the same cap is no conflict either.
    let other = "cap:out=\"media:alpha;enc=utf-8\";alpha;in=\"media:enc=utf-8\"".to_string();
    assert!(check_no_fabric_conflict(&alpha, &vec![Some(other)]).is_ok());
}

#[test]
fn cartridge_names_are_clean() {
    assert!(valid_cartridge_name("a"));
    assert!(valid_cartridge_name("9-b_c"));
    for bad in ["", "-a", "_a", "A", "a b", "a/b", "a.b", "\u{e9}"] {
        assert!(!valid_cartridge_name(bad), "{bad}");
    }
    assert!(python_cartridge_source("x").contains("name=\"x\""));
}

#[test]
fn scratch_stays_out_of_installs() {
    for name in [".venv", "__pycache__", ".git", ".pytest_cache", "cartridge.json", "a.pyc"] {
        assert!(is_ignored_project_entry(name), "{name}");
    }
    assert!(!is_ignored_project_entry("cartridge.py"));
    assert_eq!(
        dev_version_dir("/c/", 3, CartridgeChannel::Release, "n", "1"),
        "/c/dev/v3/release/n/1"
    );
}

#[test]
fn development_errors_say_what_to_do() {
    assert!(matches!(project_entry("p", false), Err(DevError::NoEntry(p)) if p == "p/cartridge.py"));
    let failed = EntryOutput {
        success: false,
        code: None,
        stdout: Vec::new(),
        stderr: vec![b' ', 0xff, b'\n'],
    };
    let err = read_entry_manifest("e", Ok(failed)).unwrap_err();
    assert_eq!(
        err.to_string(),
        "the cartridge entry 'e' exited with a signal when asked for its manifest:\n\u{fffd}"
    );
    let err = read_entry_manifest("e", Err("denied".to_string())).unwrap_err();
    assert!(err.to_string().contains("denied. Make sure"));
    let coded = DevError::ManifestFailed {
        entry: "e".to_string(),
        code: Some(-2),
        stderr: "x".to_string(),
    };
    assert!(coded.to_string().contains("exited with code -2 when"));
    assert_eq!(io_err("reading", "gone").to_string(), "reading: gone");
    let parse = DevError::ManifestParse { entry: "e".to_string(), source: "eof".to_string() };
    assert!(parse.to_string().ends_with("could not parse: eof"));
    let conflict = DevError::FabricConflict {
        alias: "a".to_string(),
        dev_urn: "cap:d".to_string(),
        fabric_urn: "cap:f".to_string(),
    };
    assert!(conflict.to_string().starts_with("dev cap 'cap:d' claims alias 'a'"));
    let exists = DevError::AlreadyExists("p".to_string());
    assert_eq!(exists.to_string(), "'p' already exists — pick a new name or remove it first");
}

// ---------------------------------------------------------------------------
// What a build is pinned to
// ---------------------------------------------------------------------------

#[test]
fn builds_are_pinned_to_a_version() {
    assert_eq!(fabric_manifest_version(" 12\n"), Ok(12));
    assert_eq!(fabric_manifest_version("0"), Err(PinError::Unversioned));
    assert_eq!(fabric_manifest_version("x"), Err(PinError::NotANumber));
    assert_eq!(fabric_manifest_version("4294967296"), Err(PinError::NotANumber));
    assert!(provider_digest(&"0af9".repeat(16)));
    assert!(!provider_digest(&"0AF9".repeat(16)));
    assert!(!provider_digest("0af9"));
}

#[test]
fn bundled_providers_are_listed_in_order() {
    let text = |s: &str| s.to_string();
    let (a, b) = ("a".repeat(64), "b".repeat(64));
    let versions = |v: &[(&str, Option<&str>)]| {
        Some(v.iter().map(|(k, s)| (text(k), s.map(text))).collect::<Vec<_>>())
    };
    let all = vec![
        (text("model"), versions(&[("2", Some(&b)), ("1", Some(&a))])),
        (text("data"), versions(&[("1", Some(&b))])),
    ];
    let digest = |name: &str, version: &str, sha256: &str| ProviderDigest {
        name: text(name),
        version: text(version),
        sha256: text(sha256),
    };
    assert_eq!(
        read_providers(&all),
        Ok(vec![digest("data", "1", &b), digest("model", "1", &a), digest("model", "2", &b)])
    );
    assert_eq!(read_providers(&Vec::new()), Ok(Vec::new()));
    assert_eq!(
        read_providers(&vec![(text("x"), None)]),
        Err(ProviderError::NotVersions { name: text("x") })
    );
    assert_eq!(
        read_providers(&vec![(text("x"), versions(&[("1", None)]))]),
        Err(ProviderError::NotText { name: text("x"), version: text("1") })
    );
    assert_eq!(
        read_providers(&vec![(text("x"), versions(&[("1", Some("AB"))]))]),
        Err(ProviderError::NotDigest { name: text("x"), version: text("1"), sha256: text("AB") })
    );
}
