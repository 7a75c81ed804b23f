//! Machines: their notation, what is read from it, and how strands run.

use capdag::fabric::alias::StoredAlias;
use capdag::fabric::registry::{
    ArgSource, Cap, CapArg, FabricRegistry, Manifest, RegistryConfig, StoredMediaDef,
};
use capdag::machine::graph::{
    EdgeAssignmentBinding, Machine, MachineAbstractionError, MachineEdge, MachineStrand,
};
use capdag::machine::notation::{
    read_notation, read_statement, split_notation, NotationError, Statement,
};
use capdag::machine::realize::{
    caps_to_fetch, media_to_fetch, order_edges, realize_strand, StrandStepType,
};
use capdag::machine::serializer::{json_escape, NotationFormat};
use capdag::text_map::TextMap;
use capdag::urn::{CapUrn, MediaUrn};

const EXTRACT: &str = "cap:extract;in=\"media:ext=pdf\";out=\"media:enc=utf-8;ext=txt\"";
const EMBED: &str = "cap:embed;in=\"media:enc=utf-8\";out=\"media:vec;record\"";
const CAPTION: &str = "cap:in=media:image;caption;out=\"media:enc=utf-8;ext=txt\"";

fn media(s: &str) -> MediaUrn {
    MediaUrn::from_string(s).unwrap()
}

fn build_cap(urn: &str, title: &str, args: &[&str], output: &str) -> Cap {
    Cap {
        urn: CapUrn::from_string(urn).unwrap(),
        version: 0,
        title: title.to_string(),
        aliases: vec![title.to_string()],
        command: title.to_string(),
        args: args
            .iter()
            .map(|a| CapArg {
                media_urn: a.to_string(),
                sources: vec![ArgSource::Stdin { stdin: a.to_string() }],
            })
            .collect(),
        output: Some(output.to_string()),
        input_is_sequence: false,
        output_is_sequence: false,
    }
}

fn registry_with(caps: Vec<Cap>) -> FabricRegistry {
    let identity = build_cap("cap:effect=none", "identity", &[], "media:");
    let mut r = FabricRegistry::from_caches(
        RegistryConfig::new(None, None),
        0,
        Manifest::empty(0),
        TextMap::new(),
        TextMap::new(),
        identity,
        false,
    );
    r.add_caps_to_cache(caps);
    r
}

fn extract_cap_def() -> Cap {
    build_cap(EXTRACT, "extract", &["media:ext=pdf"], "media:enc=utf-8;ext=txt")
}

fn embed_cap_def() -> Cap {
    build_cap(EMBED, "embed", &["media:enc=utf-8"], "media:vec;record")
}

fn edge(cap: &str, arg: &str, source: u32, target: u32) -> MachineEdge {
    MachineEdge {
        cap_urn: CapUrn::from_string(cap).unwrap(),
        token_id: String::new(),
        assignment: vec![EdgeAssignmentBinding { cap_arg_media_urn: media(arg), source }],
        target,
        is_loop: false,
    }
}

fn strand(nodes: &[&str], edges: Vec<MachineEdge>) -> MachineStrand {
    MachineStrand {
        nodes: nodes.iter().map(|n| media(n)).collect(),
        edges,
        input_anchor_ids: vec![0],
        output_anchor_ids: vec![nodes.len() as u32 - 1],
    }
}

fn pdf_to_vec_strand() -> MachineStrand {
    strand(
        &["media:ext=pdf", "media:enc=utf-8;ext=txt", "media:vec;record"],
        vec![edge(EXTRACT, "media:ext=pdf", 0, 1), edge(EMBED, "media:enc=utf-8", 1, 2)],
    )
}

#[test]
fn test1172_serialize_two_step_strand_emits_global_aliases_and_node_names() {
    let machine = Machine::from_resolved_strands(vec![pdf_to_vec_strand()]);
    let notation = machine.to_machine_notation().unwrap();
    assert!(
        notation.contains("[edge_0 cap:") && notation.contains("[edge_1 cap:"),
        "headers must use edge_0 / edge_1 aliases, got: {notation}"
    );
    assert!(
        notation.contains("[n0 -> edge_0 -> n1]"),
        "first wiring should be `n0 -> edge_0 -> n1`, got: {notation}"
    );
    assert!(
        notation.contains("[n1 -> edge_1 -> n2]"),
        "second wiring should be `n1 -> edge_1 -> n2`, got: {notation}"
    );
}

#[test]
fn test1175_empty_machine_serializes_to_empty_string() {
    let machine = Machine::from_resolved_strands(vec![]);
    let notation = machine.to_machine_notation().unwrap();
    assert!(notation.is_empty());
    assert!(machine.is_empty());
    assert_eq!(machine.strand_count(), 0);
}

fn seed_media_titles(registry: &mut FabricRegistry, urns: &[&str]) {
    for urn in urns {
        registry.insert_cached_media_def_for_test(StoredMediaDef {
            urn: urn.to_string(),
            version: 0,
            media_type: "application/octet-stream".to_string(),
            title: format!("Title for {urn}"),
            profile_uri: None,
            schema: None,
            description: None,
            documentation: None,
            validation: None,
            metadata: None,
            extensions: Vec::new(),
        });
    }
}

#[test]
fn test1176_render_payload_json_includes_strand_with_anchors() {
    let mut registry = registry_with(vec![extract_cap_def(), embed_cap_def()]);
    seed_media_titles(
        &mut registry,
        &["media:ext=pdf", "media:enc=utf-8;ext=txt", "media:vec;record"],
    );
    let machine = Machine::from_resolved_strands(vec![pdf_to_vec_strand()]);
    let payload = machine.to_render_payload_json(&registry).unwrap();
    assert!(payload.starts_with("{\"strands\":["));
    assert!(payload.contains("\"nodes\":["));
    assert!(payload.contains("\"edges\":["));
    assert!(payload.contains("\"input_anchor_nodes\":["));
    assert!(payload.contains("\"output_anchor_nodes\":["));
    assert!(payload.contains("extract"));
    assert!(payload.contains("embed"));
    assert!(payload.contains("\"title\":\"Title for media:ext=pdf\""));
    assert!(payload.contains("\"title\":\"extract\""));
    assert!(payload.contains("\"title\":\"embed\""));
}

#[test]
fn test1177_render_payload_for_empty_machine_has_empty_strands_array() {
    let registry = registry_with(Vec::new());
    let machine = Machine::from_resolved_strands(vec![]);
    let payload = machine.to_render_payload_json(&registry).unwrap();
    assert_eq!(payload, "{\"strands\":[]}");
}

#[test]
fn test1137_two_strand_machine_serializes_to_notation_containing_both_ops() {
    let extract_strand = strand(
        &["media:ext=pdf", "media:enc=utf-8;ext=txt"],
        vec![edge(EXTRACT, "media:ext=pdf", 0, 1)],
    );
    let caption_strand = strand(
        &["media:image", "media:enc=utf-8;ext=txt"],
        vec![edge(CAPTION, "media:image", 0, 1)],
    );
    let machine = Machine::from_resolved_strands(vec![extract_strand, caption_strand]);
    let notation = machine.to_machine_notation().unwrap();
    assert!(!notation.is_empty(), "notation must be non-empty for a two-strand machine");
    assert!(notation.contains("extract"), "notation must contain the 'extract' op tag");
    assert!(notation.contains("caption"), "notation must contain the 'caption' op tag");
    assert!(notation.contains("[n2 -> edge_1 -> n3]"), "got: {notation}");
}

/// Makes a machine of one strand from its notation: a data position has the
/// type that the first cap at it takes or gives.
fn from_notation(text: &str, registry: &FabricRegistry) -> Machine {
    let mut caps: Vec<(String, CapUrn)> = Vec::new();
    let mut names: Vec<String> = Vec::new();
    let mut nodes: Vec<MediaUrn> = Vec::new();
    let mut edges: Vec<MachineEdge> = Vec::new();
    for statement in read_notation(text).expect("the notation must be read") {
        match statement {
            Statement::Header { token, cap } => caps.push((token, cap)),
            Statement::Wiring { sources, is_loop, token, target } => {
                let cap_urn = match caps.iter().find(|(t, _)| *t == token) {
                    Some((_, cap)) => cap.copied(),
                    None => {
                        CapUrn::from_string(&registry.aliases.get(&token).unwrap().target).unwrap()
                    }
                };
                let cap = registry.get_cached_cap_in_memory(&cap_urn.to_string()).unwrap();
                let mut place = |name: &str, urn: String| match names.iter().position(|n| n == name) {
                    Some(i) => i as u32,
                    None => {
                        names.push(name.to_string());
                        nodes.push(media(&urn));
                        names.len() as u32 - 1
                    }
                };
                let assignment = sources
                    .iter()
                    .enumerate()
                    .map(|(i, name)| EdgeAssignmentBinding {
                        cap_arg_media_urn: media(&cap.args[i].media_urn),
                        source: place(name, cap_urn.in_spec()),
                    })
                    .collect();
                let target = place(&target, cap_urn.out_spec());
                edges.push(MachineEdge {
                    cap_urn,
                    token_id: String::new(),
                    assignment,
                    target,
                    is_loop,
                });
            }
        }
    }
    let count = nodes.len() as u32;
    let is_target = |n: &u32| edges.iter().any(|e| e.target == *n);
    let is_source = |n: &u32| edges.iter().any(|e| e.assignment.iter().any(|a| a.source == *n));
    let input_anchor_ids = (0..count).filter(|n| !is_target(n)).collect();
    let output_anchor_ids = (0..count).filter(|n| !is_source(n)).collect();
    Machine::from_resolved_strands(vec![MachineStrand {
        nodes,
        edges,
        input_anchor_ids,
        output_anchor_ids,
    }])
}

#[test]
fn test1173_serialize_then_parse_round_trip_preserves_strict_equivalence() {
    let registry = registry_with(vec![extract_cap_def(), embed_cap_def()]);
    let m1 = Machine::from_resolved_strands(vec![pdf_to_vec_strand()]);
    let notation = m1.to_machine_notation().unwrap();
    let m2 = from_notation(&notation, &registry);
    assert!(
        m1.is_equivalent(&m2),
        "machine and its parse-reserialize must be strictly equivalent"
    );
    let notation2 = m2.to_machine_notation().unwrap();
    assert_eq!(
        notation, notation2,
        "canonical notation is a fixed point of parse-then-serialize"
    );
}

#[test]
fn test1174_line_based_format_round_trips_to_same_machine() {
    let registry = registry_with(vec![extract_cap_def(), embed_cap_def()]);
    let m1 = Machine::from_resolved_strands(vec![pdf_to_vec_strand()]);
    let line_based = m1.to_machine_notation_formatted(NotationFormat::LineBased).unwrap();
    assert!(
        !line_based.contains('['),
        "line-based form must not contain brackets, got: {line_based}"
    );
    let m2 = from_notation(&line_based, &registry);
    assert!(m1.is_equivalent(&m2));
}

#[test]
fn test1196_aliased_serialization_uses_alias_and_round_trips() {
    let mut registry = registry_with(vec![extract_cap_def(), embed_cap_def()]);
    for name in ["extract-pdf", "ex"] {
        registry.insert_cached_alias_for_test(StoredAlias {
            name: name.to_string(),
            target: EXTRACT.to_string(),
            version: 1,
        });
    }
    let m1 = Machine::from_resolved_strands(vec![pdf_to_vec_strand()]);
    let aliased = m1.to_machine_notation_aliased(&registry, NotationFormat::Bracketed).unwrap();
    assert!(
        aliased.contains("-> ex ->"),
        "extract cap must be referenced in the wiring by the shortest alias `ex`, got: {aliased}"
    );
    assert!(
        !aliased.contains("cap:extract"),
        "the aliased extract cap URN must not appear, got: {aliased}"
    );
    assert!(
        aliased.contains("cap:embed"),
        "the un-aliased embed cap must keep its header URN, got: {aliased}"
    );
    assert_eq!(read_notation(&aliased).unwrap().len(), 3);
    let m2 = from_notation(&aliased, &registry);
    assert!(
        m1.is_equivalent(&m2),
        "aliased serialize → parse must preserve strict equivalence"
    );
}

fn says(s: &Statement) -> String {
    match s {
        Statement::Header { token, cap } => format!("{token} = {}", cap.to_string()),
        Statement::Wiring { sources, is_loop, token, target } => {
            format!("{sources:?} {is_loop} {token} {target}")
        }
    }
}

#[test]
fn every_layout_reads_back_as_the_same_statements() {
    let mut looped = pdf_to_vec_strand();
    looped.edges[1].is_loop = true;
    looped.edges[1].assignment.push(EdgeAssignmentBinding {
        cap_arg_media_urn: media("media:ext=pdf"),
        source: 0,
    });
    let machine = Machine::from_resolved_strands(vec![looped]);
    let expected = vec![
        format!("edge_0 = {}", CapUrn::from_string(EXTRACT).unwrap().to_string()),
        format!("edge_1 = {}", CapUrn::from_string(EMBED).unwrap().to_string()),
        "[\"n0\"] false edge_0 n1".to_string(),
        "[\"n1\", \"n0\"] true edge_1 n2".to_string(),
    ];
    let line_based = machine.to_machine_notation_formatted(NotationFormat::LineBased).unwrap();
    assert!(!line_based.contains('['), "got: {line_based}");
    for text in [
        machine.to_machine_notation().unwrap(),
        machine.to_machine_notation_multiline().unwrap(),
        line_based,
    ] {
        let read: Vec<String> = read_notation(&text).unwrap().iter().map(says).collect();
        assert_eq!(read, expected, "from: {text}");
    }
}

#[test]
fn quotes_hold_brackets_and_lines_together() {
    let odd = "cap:in=media:a;note=\"a]\\\"b\nc\"";
    let s = strand(&["media:a", "media:b"], vec![edge(odd, "media:a", 0, 1)]);
    let machine = Machine::from_resolved_strands(vec![s]);
    for format in [NotationFormat::Bracketed, NotationFormat::LineBased] {
        let text = machine.to_machine_notation_formatted(format).unwrap();
        let read = read_notation(&text).unwrap();
        assert_eq!(read.len(), 2, "from: {text}");
        match &read[0] {
            Statement::Header { token, cap } => {
                assert_eq!(token, "edge_0");
                assert!(cap.is_equivalent(&CapUrn::from_string(odd).unwrap()));
            }
            other => panic!("expected a header, got {other:?}"),
        }
    }
}

#[test]
fn texts_that_are_no_notation_are_refused() {
    assert!(matches!(read_notation("[n0 -> x -> n1"), Err(NotationError::Unclosed)));
    assert!(matches!(read_notation("[n0 -> x -> n1][y]"), Err(NotationError::Unreadable(1))));
    assert!(read_notation(" \n ").unwrap().is_empty());
    assert_eq!(split_notation("[a]\n[b]c").unwrap(), vec!["a", "b", "c"]);
    assert!(read_statement("x cap:in=nonsense").is_none());
    assert!(read_statement("() -> x -> n1").is_some());
}

#[test]
fn equivalent_machines_differ_only_in_identity() {
    let a = Machine::from_resolved_strands(vec![pdf_to_vec_strand()]);
    let mut other = pdf_to_vec_strand();
    other.edges[0].token_id = "t-1".to_string();
    let b = Machine::from_resolved_strands(vec![other]);
    assert!(a.is_equivalent(&b));
    assert_eq!(a.to_machine_notation(), b.to_machine_notation());
    let mut changed = pdf_to_vec_strand();
    changed.edges[1].is_loop = true;
    assert!(!a.is_equivalent(&Machine::from_resolved_strands(vec![changed])));
}

#[test]
fn payload_needs_every_definition() {
    let registry = registry_with(vec![extract_cap_def()]);
    let machine = Machine::from_resolved_strands(vec![pdf_to_vec_strand()]);
    assert!(matches!(
        machine.to_render_payload_json(&registry),
        Err(MachineAbstractionError::UncachedMediaDef { .. })
    ));
    let mut registry = registry_with(vec![extract_cap_def()]);
    seed_media_titles(
        &mut registry,
        &["media:ext=pdf", "media:enc=utf-8;ext=txt", "media:vec;record"],
    );
    assert!(matches!(
        machine.to_render_payload_json(&registry),
        Err(MachineAbstractionError::UncachedCap { .. })
    ));
    assert_eq!(json_escape("a\"b\\c\n"), "a\\\"b\\\\c\\n");
}

#[test]
fn what_a_strand_lacks_is_told_before_it_runs() {
    let strand = pdf_to_vec_strand();
    let mut registry = registry_with(vec![extract_cap_def()]);
    let embed = CapUrn::from_string(EMBED).unwrap().to_string();
    assert_eq!(caps_to_fetch(&strand, &registry), vec![embed]);
    registry.add_caps_to_cache(vec![embed_cap_def()]);
    assert!(caps_to_fetch(&strand, &registry).is_empty());
    assert_eq!(
        media_to_fetch(&strand, &registry),
        vec!["media:ext=pdf", "media:enc=utf-8;ext=txt", "media:record;vec"]
    );
    seed_media_titles(&mut registry, &["media:ext=pdf", "media:vec;record"]);
    assert_eq!(media_to_fetch(&strand, &registry), vec!["media:enc=utf-8;ext=txt"]);
}

#[test]
fn strands_run_from_source_to_target() {
    let registry = registry_with(vec![extract_cap_def(), embed_cap_def()]);
    let infer = |cap: &CapUrn, _: &MediaUrn| -> Result<MediaUrn, String> {
        MediaUrn::from_string(&cap.out_spec()).map_err(|e| e.to_string())
    };
    let s = pdf_to_vec_strand();
    assert_eq!(order_edges(&s), Some(vec![0, 1]));
    let run = realize_strand(&s, &registry, &media("media:ext=pdf"), 0, infer).unwrap();
    assert_eq!(run.cap_step_count, 2);
    assert!(matches!(run.steps[0].step_type, StrandStepType::Cap { .. }));
    assert!(run.target_media_urn.is_equivalent(&media("media:vec;record")));
    let none = registry_with(Vec::new());
    assert!(matches!(
        realize_strand(&s, &none, &media("media:ext=pdf"), 0, infer),
        Err(MachineAbstractionError::UnknownCap { .. })
    ));
    let mut cut = pdf_to_vec_strand();
    cut.edges[0].assignment[0].source = 2;
    assert!(realize_strand(&cut, &registry, &media("media:ext=pdf"), 0, infer).is_err());
}
