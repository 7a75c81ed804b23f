//! The command line.

use capdag::cli::cap::{
    check_found, check_single_plan, check_stdin, first_provider, narrow_by, next_input_word,
    next_step, no_input_file, no_provider, provider_line, read_dev_scan, read_narrowed, CapStep,
    DevScan,
};
use capdag::cli::command::{
    binary_state, build_binding, exit_code, install_resolves_cap, log_line, read_cache, read_command,
    read_subject, usage, CacheAction, Command, LogRecord,
};
use capdag::cli::inputs::{
    bind_failure, bind_file, bind_files, emit_cap, emit_combined, emit_each, find_input_nodes,
    group_files, input_kind, is_multi_anchor, should_include_file, slot_input, slot_of, sort_slots,
    BindError, Binding, InputKind, Slot, StrandNames,
};
use capdag::cli::options::{
    input_source, read_cap_line, read_new_line, read_resolve_line, read_run_line, read_viz_line,
    InputSource,
};
use capdag::cli::plan::{
    candidate_line, parse_count, parse_location, parse_policy, parse_target_media, pick_candidate, read_plan_line,
    target_line, Location, Mechanism, Policy, Presence, Ranking, SearchBounds,
};
use capdag::cli::run::{check_inputs, summary, FileRun, RunAction};
use capdag::path::{file_name, input_stem, path_join, split_name};
use capdag::text::{cut_at, parse_number, replace_all};
use capdag::urn::MediaUrn;

fn line(words: &[&str]) -> Vec<String> {
    words.iter().map(|w| w.to_string()).collect()
}

fn media(s: &str) -> MediaUrn {
    MediaUrn::from_string(s).unwrap()
}

fn slots(list: &[(&str, &str)]) -> Vec<Slot> {
    list.iter().map(|(id, m)| Slot { id: id.to_string(), media: media(m) }).collect()
}

#[test]
fn lines_are_dispatched_by_their_first_word() {
    assert_eq!(read_command(&line(&["capdag", "run"])), Command::Run);
    assert_eq!(read_command(&line(&["capdag", "pdf2text"])), Command::Cap);
    assert_eq!(read_command(&line(&["capdag", "-V"])), Command::Version);
    assert_eq!(read_command(&line(&["capdag", "help"])), Command::Help);
    match read_command(&line(&["capdag", "a.machine"])) {
        Command::Bad(e) => {
            assert_eq!(e.code, 2);
            assert_eq!(
                e.message,
                "'a.machine' is a machine file — run it with: capdag run a.machine [inputs...]"
            );
        }
        other => panic!("expected a refusal, got {other:?}"),
    }
    assert!(matches!(read_command(&line(&["capdag", "--x"])), Command::Bad(e) if e.usage));
    assert!(matches!(read_command(&line(&["capdag"])), Command::Bad(e) if e.code == 1));
    assert_eq!(read_subject(&line(&["c", "find", "x"]), "find <t>"), Ok(2));
    assert_eq!(
        read_subject(&line(&["c", "find"]), "find <t>").unwrap_err().message,
        "Usage: c find <t>"
    );
    assert!(usage("prog").starts_with("Usage:\nprog <cap-alias-or-urn>"));
    assert!(!usage("prog").contains("{p}"));
}

#[test]
fn caches_are_cleared_or_refreshed() {
    assert_eq!(read_cache(&line(&["c", "cache"])), Ok(CacheAction::Refresh));
    assert_eq!(read_cache(&line(&["c", "cache", "purge"])), Ok(CacheAction::Clear));
    assert_eq!(CacheAction::Clear.done(), "cleared");
    assert!(read_cache(&line(&["c", "cache", "x"])).is_err());
    assert_eq!(exit_code(0), 0);
    assert_eq!(exit_code(3), 1);
    assert!(install_resolves_cap("cap:x", true));
    assert!(!install_resolves_cap("x", true));
    assert!(install_resolves_cap("x", false));
    assert_eq!(binary_state(true, true), "signed binary available");
    assert_eq!(binary_state(false, true), "no build for this platform");
}

#[test]
fn log_records_are_shown_on_one_line() {
    let bare = LogRecord {
        level: "info".to_string(),
        body_index: None,
        step_token_id: None,
        arg_urn: None,
        meta: None,
        cap_urn: None,
        message: "hello".to_string(),
    };
    assert_eq!(log_line(&bare), "  [log:info step='machine'] machine hello");
    let full = LogRecord {
        level: "warn".to_string(),
        body_index: Some(3),
        step_token_id: Some("t".to_string()),
        arg_urn: Some("media:a".to_string()),
        meta: Some("m".to_string()),
        cap_urn: Some("cap:x".to_string()),
        message: "hi".to_string(),
    };
    assert_eq!(
        log_line(&full),
        "  [log:warn body=3 step='t' arg='media:a'] [meta m] cap:x hi"
    );
}

#[test]
fn a_run_takes_options_before_its_machine() {
    let r = read_run_line(&line(&[
        "c", "run", "--dev-bins", "a", "b", "--trace", "t", "-o", "out", "--force", "m.machine",
        "--trace",
    ]));
    assert_eq!(r.options.dev_bins, vec!["a", "b"]);
    assert_eq!(r.options.trace.as_deref(), Some("t"));
    assert_eq!(r.options.output.as_deref(), Some("out"));
    assert!(r.options.force);
    assert_eq!(r.machine, Ok(10));
    // The machine file ends the list of binaries.
    let r = read_run_line(&line(&["c", "run", "--dev-bins", "a", "m.machine"]));
    assert_eq!(r.options.dev_bins, vec!["a"]);
    assert_eq!(r.machine, Ok(4));
    let r = read_run_line(&line(&["c", "run", "--dev-bins", "a", "--trace"]));
    assert_eq!(r.options.dev_bins, vec!["a"]);
    assert_eq!(r.machine.unwrap_err().message, "--trace requires a file path");
    assert!(read_run_line(&line(&["c", "run"])).machine.unwrap_err().usage);
    assert_eq!(read_run_line(&line(&["c", "run", "-h"])).machine.unwrap_err().code, 0);
}

#[test]
fn a_cap_keeps_the_words_that_are_its_own() {
    let (o, end) = read_cap_line(&line(&[
        "c", "cap", "x", "--index", "1", "--arg", "k=v=w", "--to", "png", "--dev-bins", "d", "-o",
        "out",
    ]));
    assert!(end.is_none());
    assert_eq!(o.tokens, vec!["x", "--index", "1"]);
    assert_eq!(o.pairs, vec![("k".to_string(), "v=w".to_string())]);
    assert_eq!(o.to.as_deref(), Some("png"));
    assert_eq!(o.dev_bins, vec!["d"]);
    assert_eq!(o.output.as_deref(), Some("out"));
    let (_, end) = read_cap_line(&line(&["c", "cap", "--arg", "novalue"]));
    assert_eq!(end.unwrap().message, "--arg 'novalue' is not of the form <name>=<value>");
    let (o, end) = read_cap_line(&line(&["c", "cap", "--help"]));
    assert!(o.help && end.is_none());
    assert_eq!(input_source(1, true, "cap:x", "c", "t"), Ok(InputSource::Files));
    assert_eq!(input_source(0, false, "cap:x", "c", "t"), Ok(InputSource::Stdin));
    assert!(input_source(0, true, "cap:x", "c", "t").is_err());
}

#[test]
fn other_commands_read_their_words() {
    let o = read_new_line(&line(&["c", "new", "--python", "n", "-o", "dir"])).unwrap();
    assert_eq!((o.name.as_str(), o.parent.as_str()), ("n", "dir"));
    assert!(read_new_line(&line(&["c", "new", "--go", "n"])).is_err());
    assert!(read_new_line(&line(&["c", "new", "n", "m"])).is_err());
    assert_eq!(
        read_new_line(&line(&["c", "new"])).unwrap_err().message,
        "Usage: c new <name> [--python] [-o <dir>]"
    );
    let o = read_viz_line(&line(&["c", "dag-viz", "--dot", "m"])).unwrap();
    assert!(o.dot && o.machine == "m");
    assert!(!read_viz_line(&line(&["c", "dag-viz", "m", "--dot", "--mermaid"])).unwrap().dot);
    assert!(read_viz_line(&line(&["c", "dag-viz", "m", "n"])).is_err());
    assert!(read_viz_line(&line(&["c", "dag-viz", "-x"])).unwrap_err().message.contains("'-x'"));
    let o = read_resolve_line(&line(&["c", "resolve", "a", "--no-cache", "b"])).unwrap();
    assert_eq!((o.tokens, o.no_cache), (line(&["a", "b"]), true));
    assert!(read_resolve_line(&line(&["c", "resolve", "-x"])).is_err());
}

#[test]
fn a_plan_is_configured_by_its_options() {
    let bounds = SearchBounds { depth: 5, max_paths: 6, max: 7 };
    let (o, end) = read_plan_line(
        &line(&[
            "c", "plan", "a.pdf", "--to", "png", "--to", "txt", "--converge", "combine", "--where",
            "depth=3", "--rank", "cost", "--depth", "+9", "b.pdf", "--run",
        ]),
        bounds,
    );
    assert!(end.is_none());
    assert_eq!(o.files, vec!["a.pdf", "b.pdf"]);
    assert_eq!(o.to, vec!["png", "txt"]);
    assert_eq!((o.depth, o.max_paths, o.max), (9, 6, 7));
    assert!(o.run && o.configured && !o.force);
    assert_eq!(
        parse_policy(&o).unwrap(),
        Policy {
            presence: Presence::Converged,
            location: Location::AtDepth(3),
            mechanism: Mechanism::Any,
            ranking: Ranking::Cost,
        }
    );
    let (_, end) = read_plan_line(&line(&["c", "plan", "--depth", "-1"]), bounds);
    assert_eq!(
        end.unwrap().message,
        "--depth requires a non-negative integer, got '-1'"
    );
    let (_, end) = read_plan_line(&line(&["c", "plan", "--output"]), bounds);
    assert_eq!(end.unwrap().message, "--output requires a value");
    let (o, _) = read_plan_line(&line(&["c", "plan", "--rank", "x"]), bounds);
    assert!(!o.configured);
    assert_eq!(
        parse_policy(&o).unwrap_err().message,
        "--rank must be intent|shortest|cost, got 'x'"
    );
    assert_eq!(parse_location("latest"), Ok(Location::Latest));
    assert!(parse_location("depth=x").is_err());
    assert!(parse_location("near").is_err());
    assert_eq!(parse_count("12", "--pick"), Ok(12));
    assert!(parse_target_media("png").unwrap().is_equivalent(&media("media:ext=png")));
    assert!(parse_target_media("media:a").unwrap().is_equivalent(&media("media:a")));
    assert!(parse_target_media("cap:a").is_err());
    assert_eq!(pick_candidate(&vec![2, 0, 1], 1), Ok(2));
    assert_eq!(
        pick_candidate(&vec![0], 4).unwrap_err().message,
        "--pick 4 is out of range (0..1)"
    );
}

#[test]
fn files_are_bound_by_their_type() {
    let s = slots(&[("any", "media:"), ("pdf", "media:ext=pdf"), ("text", "media:enc=utf-8")]);
    assert_eq!(bind_file(&s, &media("media:ext=pdf")), Binding::Anchor(1));
    assert_eq!(bind_file(&s, &media("media:x")), Binding::Anchor(0));
    assert_eq!(bind_file(&s, &media("media:enc=utf-8;ext=pdf")), Binding::Ambiguous);
    let narrow = slots(&[("pdf", "media:ext=pdf"), ("text", "media:enc=utf-8")]);
    assert_eq!(bind_file(&narrow, &media("media:x")), Binding::NoAnchor);
    let files = vec![media("media:ext=pdf"), media("media:enc=utf-8"), media("media:ext=pdf;y")];
    let bound = bind_files(&narrow, &files).unwrap();
    assert_eq!(bound, vec![0, 1, 0]);
    assert_eq!(slot_input(&narrow, &bound, "pdf"), (vec![0, 2], true));
    assert_eq!(slot_input(&narrow, &bound, "text"), (vec![1], false));
    let only = vec![media("media:ext=pdf")];
    assert_eq!(bind_files(&narrow, &only), Err(BindError::Unfilled(1)));
    let paths = line(&["a.pdf"]);
    assert_eq!(
        bind_failure(BindError::Unfilled(1), &paths, &only, &narrow).message,
        "input anchor 'text' (media:enc=utf-8) received no file — every anchor of a multi-anchor machine needs an input"
    );
    assert_eq!(bind_files(&narrow, &vec![media("media:x")]), Err(BindError::NoAnchor(0)));
    assert_eq!(
        bind_failure(BindError::NoAnchor(0), &paths, &only, &narrow).message,
        "'a.pdf' (detected media:ext=pdf) does not conform to any input anchor of this machine"
    );
    let both = vec![media("media:ext=pdf"), media("media:enc=utf-8;ext=pdf")];
    assert_eq!(bind_files(&narrow, &both), Err(BindError::Ambiguous(1)));
    assert!(is_multi_anchor(&vec![1, 2]));
    assert!(!is_multi_anchor(&vec![1, 1]));
    let sorted = sort_slots(slots(&[("b", "media:"), ("a", "media:"), ("c", "media:")]));
    let ids: Vec<&str> = sorted.iter().map(|s| s.id.as_str()).collect();
    assert_eq!(ids, vec!["a", "b", "c"]);
    assert!(slot_of("s", "media:a").is_ok());
    assert!(slot_of("s", "x").unwrap_err().message.starts_with("input slot 's' declares"));
}

#[test]
fn where_an_input_stands_does_not_matter() {
    let m = media("media:enc=utf-8;ext=pdf;y");
    let a = slots(&[("pdf", "media:ext=pdf"), ("both", "media:enc=utf-8;ext=pdf")]);
    let b = slots(&[("both", "media:enc=utf-8;ext=pdf"), ("pdf", "media:ext=pdf")]);
    assert_eq!(bind_file(&a, &m), Binding::Anchor(1));
    assert_eq!(bind_file(&b, &m), Binding::Anchor(0));
}

#[test]
fn files_of_one_type_are_one_source() {
    let files = vec![media("media:a"), media("media:b"), media("media:a")];
    let sources = group_files(&files);
    let view: Vec<(String, usize)> =
        sources.iter().map(|s| (s.media.to_string(), s.count)).collect();
    assert_eq!(view, vec![("media:a".to_string(), 2), ("media:b".to_string(), 1)]);
}

#[test]
fn inputs_are_named_once() {
    let strands = vec![
        StrandNames {
            anchors: vec![2, 0, 9],
            names: vec![("x".to_string(), 0), ("y".to_string(), 2), ("z".to_string(), 2)],
        },
        StrandNames { anchors: vec![1], names: vec![("x".to_string(), 1)] },
    ];
    assert_eq!(find_input_nodes(&strands), vec!["z", "x"]);
}

#[test]
fn folders_are_searched_for_content() {
    assert!(should_include_file("/d/a.pdf", false));
    for skipped in ["/d/.hidden", "/d/Thumbs.db", "/d/a.TXT", "/d/b.json", "/d/a.tar.gz"] {
        assert!(!should_include_file(skipped, false), "{skipped}");
    }
    assert!(!should_include_file("/d/a.pdf", true));
    assert_eq!(input_kind("*.pdf", false, true), InputKind::Pattern);
    assert_eq!(input_kind("d", true, false), InputKind::Folder);
    assert_eq!(input_kind("f", false, true), InputKind::File);
    assert_eq!(input_kind("f", false, false), InputKind::Missing);
}

#[test]
fn several_results_go_into_a_folder() {
    let none = None;
    let dir = Some("out".to_string());
    let one = emit_each("/d/a.b.pdf", &none, false, 1, 1, 0);
    assert_eq!((one.output_dir, one.input_stem.as_str()), (None, "a.b"));
    let many = emit_each("/d/a.pdf", &none, true, 2, 1, 1);
    assert_eq!((many.output_dir.as_deref(), many.input_stem.as_str()), (Some("."), "a.strand1"));
    assert!(many.force);
    let all = emit_combined("/d/a.pdf", &none, false, 1, 0);
    assert_eq!((all.output_dir.as_deref(), all.input_stem.as_str()), (Some("."), "a.combined"));
    let all = emit_combined("/d/a.pdf", &dir, false, 2, 0);
    assert_eq!(all.input_stem, "a.combined.strand0");
    assert_eq!(all.output_dir.as_deref(), Some("out"));
    assert_eq!(emit_cap("stdin", &none, false, 1).output_dir, None);
    assert_eq!(emit_cap("a", &none, false, 2).output_dir.as_deref(), Some("."));
}

#[test]
fn paths_are_texts_with_slashes() {
    assert_eq!(path_join("a", "b"), "a/b");
    assert_eq!(path_join("a/", "b"), "a/b");
    assert_eq!(path_join("a", "/b"), "/b");
    assert_eq!(path_join("", "b"), "b");
    assert_eq!(file_name("/a/b/"), Some("b".to_string()));
    assert_eq!(file_name("/a/b/."), Some("b".to_string()));
    assert_eq!(file_name("/a/.."), None);
    assert_eq!(file_name("/"), None);
    assert_eq!(split_name("a.b.c"), ("a.b".to_string(), Some("c".to_string())));
    assert_eq!(split_name(".a"), (".a".to_string(), None));
    assert_eq!(split_name("a"), ("a".to_string(), None));
    assert_eq!(split_name("a."), ("a".to_string(), Some(String::new())));
    assert_eq!(input_stem("/x/y.z"), "y");
    assert_eq!(input_stem("/"), "input");
    for p in ["a/b", "a//b/", "x/./y.tar", ".hid", "..", "a.", ".", "/", "", "a/..", "é.ü"] {
        let std = std::path::Path::new(p);
        assert_eq!(file_name(p), std.file_name().map(|n| n.to_string_lossy().into_owned()), "{p}");
        let stem = std.file_stem().map(|n| n.to_string_lossy().into_owned());
        assert_eq!(input_stem(p), stem.unwrap_or("input".to_string()), "{p}");
    }
}

#[test]
fn texts_are_cut_replaced_and_counted() {
    assert_eq!(cut_at("a=b=c", '='), Some(("a".to_string(), "b=c".to_string())));
    assert_eq!(cut_at("abc", '='), None);
    assert_eq!(replace_all("aaa", "aa", "b"), "aaa".replace("aa", "b"));
    assert_eq!(replace_all("x{p}{p}", "{p}", "{p}q"), "x{p}q{p}q");
    for s in ["0", "+7", "007", "18446744073709551615", "18446744073709551616", "", "+", "-1", "1 "] {
        assert_eq!(parse_number(s, u64::MAX), s.parse::<u64>().ok(), "{s}");
    }
    assert_eq!(parse_number("300", 255), None);
}

#[test]
fn candidates_and_targets_are_listed() {
    assert_eq!(
        candidate_line(0, "Text", 2, true, false, "[x]"),
        "  [0] Text  (2 steps, combined result)\n      [x]"
    );
    assert_eq!(
        candidate_line(1, "Text", 3, false, true, "[y]"),
        "  [1] Text  (3 steps, fan-out)\n      [y]"
    );
    assert_eq!(
        target_line("T", "media:a", Some(("media:b", 2)), 5),
        "  combine all → T  [media:a]  (via media:b at depth 2, ~5 steps)"
    );
    assert_eq!(
        target_line("T", "media:a", None, 1),
        "  convert each → T  [media:a]  (~1 steps)"
    );
}

#[test]
fn a_run_goes_through_every_file_and_strand() {
    let mut run = FileRun::new(3, 2);
    let script = [
        (RunAction::Read(0), true),
        (RunAction::Strand { file: 0, strand: 0 }, true),
        (RunAction::Strand { file: 0, strand: 1 }, true),
        (RunAction::Read(1), false),
        (RunAction::Read(2), true),
        (RunAction::Strand { file: 2, strand: 0 }, false),
        (RunAction::Strand { file: 2, strand: 1 }, true),
    ];
    for (action, well) in script {
        assert_eq!(run.action(), action);
        run.went(well);
    }
    assert_eq!(run.action(), RunAction::Done);
    assert_eq!((run.successes, run.errors), (1, 2));
    run.went(true);
    assert_eq!((run.successes, run.errors), (1, 2));
    assert_eq!(
        summary(false, 3, 1, 2),
        "=== Summary ===\nProcessed: 3\nSuccess: 1\nErrors: 2"
    );
    assert!(summary(true, 3, 1, 0).contains("Bound files: 3"));
    assert!(check_inputs(1, 1).is_none());
    assert_eq!(check_inputs(0, 0).unwrap().message, "No input nodes found in machine notation");
    assert_eq!(check_inputs(1, 0).unwrap().message, "No input files found");
}

#[test]
fn a_cap_is_run_only_when_it_is_settled() {
    let to = Some("png".to_string());
    assert_eq!(next_step(None, true, &to, "t"), CapStep::ScanDev);
    assert_eq!(next_step(Some(true), true, &to, "t"), CapStep::ShowInterface);
    assert_eq!(next_step(Some(true), false, &None, "t"), CapStep::Narrow);
    assert_eq!(next_step(Some(false), false, &None, "t"), CapStep::Invoke);
    let CapStep::Leave(exit) = next_step(Some(false), false, &to, "t") else {
        panic!("a concrete cap takes no target");
    };
    assert_eq!(exit.code, 2);
    assert_eq!(
        exit.message,
        "--to is only valid for an abstract (generic) cap; 't' resolves to a concrete cap"
    );
}

#[test]
fn a_cap_under_development_runs_unless_it_conflicts() {
    let found = |conflict: Option<&str>| DevScan::Found {
        dir: "/d".to_string(),
        conflict: conflict.map(|c| c.to_string()),
    };
    assert_eq!(
        read_dev_scan("t", found(None)).unwrap(),
        "  [dev] 't' is not published in the fabric; running the local dev cartridge at /d"
    );
    assert_eq!(read_dev_scan("t", found(Some("taken"))).unwrap_err().message, "taken");
    let unknown = read_dev_scan("t", DevScan::Nothing).unwrap_err();
    assert!(unknown.message.starts_with("Error resolving cap 't': not defined in the fabric"));
    assert_eq!(unknown.code, 1);
    assert_eq!(
        read_dev_scan("t", DevScan::Failed("gone".to_string())).unwrap_err().message,
        "Error scanning local dev cartridges for 't': gone"
    );
}

#[test]
fn a_cap_is_chosen_by_input_and_target() {
    let words = line(&["-v", "--x", "a.pdf", "b"]);
    assert_eq!(next_input_word(&words, 0), Some(2));
    assert_eq!(next_input_word(&words, 3), Some(3));
    assert_eq!(next_input_word(&words, 4), None);
    assert_eq!(no_input_file("convert").code, 2);
    let pdf = || Ok("media:ext=pdf".to_string());
    let (input, target) = narrow_by("a.pdf", pdf(), &Some("png".to_string())).unwrap();
    assert_eq!(input.to_string(), media("media:ext=pdf").to_string());
    assert_eq!(target.unwrap().to_string(), media("media:ext=png").to_string());
    assert!(narrow_by("a.pdf", pdf(), &None).unwrap().1.is_none());
    assert_eq!(
        narrow_by("a.pdf", Err("no bytes".to_string()), &None).unwrap_err().message,
        "Failed to detect the media type of 'a.pdf': no bytes"
    );
    assert_eq!(
        narrow_by("a.pdf", Ok("x".to_string()), &None).unwrap_err().message,
        "Detected an invalid media URN 'x': malformed URN"
    );
    assert_eq!(narrow_by("a.pdf", pdf(), &Some("cap:x".to_string())).unwrap_err().code, 2);
    let name = || Ok("pdf2png".to_string());
    assert_eq!(
        read_narrowed("convert", &media("media:ext=pdf"), Ok("cap:x".to_string()), name()).unwrap(),
        "convert → pdf2png (input media:ext=pdf)"
    );
    let lost =
        read_narrowed("c", &media("media:a"), Ok("cap:x".to_string()), Err("gone".to_string()));
    assert_eq!(
        lost.unwrap_err().message,
        "Narrowed to 'cap:x' but that cap is not in the registry: gone"
    );
    let none = read_narrowed("c", &media("media:a"), Err("ambiguous".to_string()), name());
    assert_eq!(none.unwrap_err().message, "ambiguous");
}

#[test]
fn a_cap_needs_input_and_one_plan() {
    assert!(check_stdin(&vec![1]).is_none());
    assert_eq!(check_stdin(&vec![]).unwrap().code, 2);
    let paths = line(&["a", "b"]);
    assert!(check_found(&paths, &vec![1, 2]).is_none());
    assert_eq!(check_found(&paths, &vec![1, 0]).unwrap().message, "No input files found at 'b'");
    assert!(check_single_plan(&vec![1]).is_none());
    assert_eq!(
        check_single_plan(&vec![]).unwrap().message,
        "internal error: single-cap notation produced 0 plans (expected 1)"
    );
    assert_eq!(
        check_single_plan(&vec![2]).unwrap().message,
        "internal error: single-cap plan has 2 input slots (expected 1)"
    );
}

#[test]
fn providers_are_listed_and_the_first_is_installed() {
    assert_eq!(
        provider_line("c", Some("1.2"), "linux-x86_64", true, true),
        "  c v1.2 [linux-x86_64] — signed binary available"
    );
    assert_eq!(
        provider_line("c", None, "linux-x86_64", true, true),
        "  c (not in this channel's registry view)"
    );
    assert_eq!(
        no_provider(false).message,
        "No registry cartridge provides this cap (dev build: no cartridge registry baked)."
    );
    assert_eq!(first_provider("cap:x", &line(&["b", "a"])).unwrap(), "b");
    assert_eq!(
        first_provider("cap:x", &vec![]).unwrap_err().message,
        "No registry cartridge provides cap cap:x"
    );
}

#[test]
fn a_baked_schema_base_never_joins_another_registry() {
    let url = Some("https://f.test");
    let schema = Some("https://s.test");
    let both = build_binding(false, false, url, schema);
    assert_eq!(both, (Some("https://f.test".to_string()), Some("https://s.test".to_string())));
    assert_eq!(build_binding(true, false, url, schema), (None, None));
    assert_eq!(build_binding(false, true, url, schema).1, None);
    assert_eq!(build_binding(false, false, None, schema), (None, None));
}
