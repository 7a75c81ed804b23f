//! Running one cap: from its name, over the cap that it stands for, to the runs
//! on its inputs.

use crate::cli::command::{binary_state, exit_with, refusal, three, Exit, ExitView};
use crate::cli::plan::{parse_target_media, target_text};
use crate::text::{add_text, begins, begins_with, decimal, decimal_text, owned};
use crate::urn::{media_parse, media_text, MediaUrn, TagView};
use vstd::prelude::*;

verus! {

broadcast use vstd::string::group_string_axioms;

// ---------------------------------------------------------------------------
// The cap that is meant
// ---------------------------------------------------------------------------

/// What is done next about a cap that is to be run.
#[derive(Debug, PartialEq, Eq)]
pub enum CapStep {
    /// It is not published: look through the cartridges under development.
    ScanDev,
    /// Its interface is shown.
    ShowInterface,
    /// It stands for several caps: the one for the input is looked for.
    Narrow,
    /// It is run.
    Invoke,
    /// It is not run.
    Leave(Exit),
}

/// What is done next about the cap called `token`. `found` is whether it stands
/// for several caps, `None` where nothing of that name is published. Only a cap
/// that stands for several takes a target.
pub fn next_step(found: Option<bool>, help: bool, to: &Option<String>, token: &str) -> (r: CapStep)
    ensures
        r is ScanDev <==> found is None,
        r is ShowInterface <==> found is Some && help,
        r is Narrow <==> found == Some(true) && !help,
        r is Invoke <==> found == Some(false) && !help && to is None,
        r is Leave <==> found == Some(false) && !help && to is Some,
        r matches CapStep::Leave(exit) ==> exit@ == refusal(
            "--to is only valid for an abstract (generic) cap; '"@ + token@
                + "' resolves to a concrete cap"@,
            2,
        ),
{
    match found {
        None => CapStep::ScanDev,
        Some(is_abstract) => if help {
            CapStep::ShowInterface
        } else if is_abstract {
            CapStep::Narrow
        } else if to.is_none() {
            CapStep::Invoke
        } else {
            CapStep::Leave(
                exit_with(
                    three(
                        "--to is only valid for an abstract (generic) cap; '",
                        token,
                        "' resolves to a concrete cap",
                    ),
                    2,
                ),
            )
        },
    }
}

/// What the cartridges under development have to say about a cap.
#[derive(Debug, PartialEq, Eq)]
pub enum DevScan {
    /// The one in the folder `dir` has it; `conflict` is why it may not be used
    /// all the same.
    Found { dir: String, conflict: Option<String> },
    /// None has it.
    Nothing,
    /// They could not be read, for this reason.
    Failed(String),
}

/// The end of a run whose cap nobody has.
pub open spec fn unknown_cap(token: Seq<char>) -> ExitView {
    refusal(
        "Error resolving cap '"@ + token
            + "': not defined in the fabric, and no dev cartridge installed under the local `dev` slug advertises it. Publish the cap, or run `capdag dev-install <project>` on a cartridge that provides it."@,
        1,
    )
}

/// Whether a cap that is not published runs from a cartridge under development:
/// the note that says so, or why it does not.
pub fn read_dev_scan(token: &str, scan: DevScan) -> (r: Result<String, Exit>)
    ensures
        match scan {
            DevScan::Found { dir, conflict: None } => r matches Ok(note) && note@ == "  [dev] '"@
                + token@ + "' is not published in the fabric; running the local dev cartridge at "@
                + dir@,
            DevScan::Found { conflict: Some(why), .. } => r matches Err(e) && e@ == refusal(
                why@,
                1,
            ),
            DevScan::Nothing => r matches Err(e) && e@ == unknown_cap(token@),
            DevScan::Failed(why) => r matches Err(e) && e@ == refusal(
                "Error scanning local dev cartridges for '"@ + token@ + "': "@ + why@,
                1,
            ),
        },
{
    match scan {
        DevScan::Found { dir, conflict: None } => {
            let mut note = three(
                "  [dev] '",
                token,
                "' is not published in the fabric; running the local dev cartridge at ",
            );
            add_text(&mut note, &dir);
            Ok(note)
        },
        DevScan::Found { conflict: Some(why), .. } => Err(exit_with(why, 1)),
        DevScan::Nothing => Err(
            exit_with(
                three(
                    "Error resolving cap '",
                    token,
                    "': not defined in the fabric, and no dev cartridge installed under the local `dev` slug advertises it. Publish the cap, or run `capdag dev-install <project>` on a cartridge that provides it.",
                ),
                1,
            ),
        ),
        DevScan::Failed(why) => {
            let mut m = three("Error scanning local dev cartridges for '", token, "': ");
            add_text(&mut m, &why);
            Err(exit_with(m, 1))
        },
    }
}

// ---------------------------------------------------------------------------
// The cap for an input
// ---------------------------------------------------------------------------

/// Whether a word may name an input: it is no flag.
pub open spec fn may_name_input(word: Seq<char>) -> bool {
    !begins(word, "-"@)
}

/// The next word, from `from` on, that may name an input.
pub fn next_input_word(words: &Vec<String>, from: usize) -> (r: Option<usize>)
    requires
        from <= words@.len(),
    ensures
        match r {
            Some(i) => {
                &&& from <= i < words@.len()
                &&& may_name_input(words@[i as int]@)
                &&& forall|j: int| from <= j < i ==> !may_name_input(#[trigger] words@[j]@)
            },
            None => forall|j: int|
                from <= j < words@.len() ==> !may_name_input(#[trigger] words@[j]@),
        },
{
    let mut i: usize = from;
    while i < words.len()
        invariant
            from <= i <= words@.len(),
            forall|j: int| from <= j < i ==> !may_name_input(#[trigger] words@[j]@),
        decreases words@.len() - i,
    {
        if !begins_with(&words[i], "-") {
            return Some(i);
        }
        i = i + 1;
    }
    None
}

/// The end of a run of the cap `name`, which stands for several, without a file
/// to choose by.
pub fn no_input_file(name: &str) -> (r: Exit)
    ensures
        r@ == refusal(
            "'"@ + name@
                + "' is an abstract cap — it needs an input FILE to detect the media type and narrow to a concrete cap. Provide a file path (piped stdin cannot be narrowed)."@,
            2,
        ),
{
    exit_with(
        three(
            "'",
            name,
            "' is an abstract cap — it needs an input FILE to detect the media type and narrow to a concrete cap. Provide a file path (piped stdin cannot be narrowed).",
        ),
        2,
    )
}

/// The media type of a file, from what was detected of it.
pub fn read_detected(path: &str, detected: Result<String, String>) -> (r: Result<MediaUrn, Exit>)
    ensures
        match detected {
            Ok(urn) => match media_parse(urn@) {
                Some(tags) => r matches Ok(m) && m@ == tags,
                None => r matches Err(e) && e@ == refusal(
                    "Detected an invalid media URN '"@ + urn@ + "': "@ + "malformed URN"@,
                    1,
                ),
            },
            Err(why) => r matches Err(e) && e@ == refusal(
                "Failed to detect the media type of '"@ + path@ + "': "@ + why@,
                1,
            ),
        },
{
    match detected {
        Ok(urn) => match MediaUrn::from_string(&urn) {
            Ok(media) => Ok(media),
            Err(e) => {
                let mut m = three("Detected an invalid media URN '", &urn, "': ");
                add_text(&mut m, &e.to_string());
                Err(exit_with(m, 1))
            },
        },
        Err(why) => {
            let mut m = three("Failed to detect the media type of '", path, "': ");
            add_text(&mut m, &why);
            Err(exit_with(m, 1))
        },
    }
}

/// The target in the model.
pub open spec fn target_view(to: Option<MediaUrn>) -> Option<Seq<TagView>> {
    match to {
        Some(m) => Some(m@),
        None => None,
    }
}

/// What a cap that stands for several is chosen by: the media type of the input
/// and, where one is given, that of the target. The input is looked at first.
pub fn narrow_by(path: &str, detected: Result<String, String>, to: &Option<String>) -> (r: Result<
    (MediaUrn, Option<MediaUrn>),
    Exit,
>)
    ensures
        match detected {
            Err(why) => r matches Err(e) && e@ == refusal(
                "Failed to detect the media type of '"@ + path@ + "': "@ + why@,
                1,
            ),
            Ok(urn) => match (media_parse(urn@), *to) {
                (None, _) => r matches Err(e) && e@ == refusal(
                    "Detected an invalid media URN '"@ + urn@ + "': "@ + "malformed URN"@,
                    1,
                ),
                (Some(tags), None) => r matches Ok(by) && by.0@ == tags && by.1 is None,
                (Some(tags), Some(t)) => match media_parse(target_text(t@)) {
                    Some(goal) => r matches Ok(by) && by.0@ == tags && target_view(by.1) == Some(
                        goal,
                    ),
                    None => r matches Err(e) && e@ == refusal(
                        "Invalid --to target '"@ + t@ + "': "@ + "malformed URN"@,
                        2,
                    ),
                },
            },
        },
{
    let input = match read_detected(path, detected) {
        Ok(m) => m,
        Err(e) => return Err(e),
    };
    match to {
        Some(t) => match parse_target_media(t) {
            Ok(m) => Ok((input, Some(m))),
            Err(e) => Err(e),
        },
        None => Ok((input, None)),
    }
}

/// What comes of choosing: `chosen` is the URN of the cap, or why there is none;
/// `known` is its name in the registry, or why it has none. The line says which
/// cap stands in for `name`.
pub fn read_narrowed(
    name: &str,
    input: &MediaUrn,
    chosen: Result<String, String>,
    known: Result<String, String>,
) -> (r: Result<String, Exit>)
    ensures
        match (chosen, known) {
            (Err(why), _) => r matches Err(e) && e@ == refusal(why@, 1),
            (Ok(urn), Err(why)) => r matches Err(e) && e@ == refusal(
                "Narrowed to '"@ + urn@ + "' but that cap is not in the registry: "@ + why@,
                1,
            ),
            (Ok(_), Ok(concrete)) => r matches Ok(line) && line@ == name@ + " → "@ + concrete@
                + " (input "@ + media_text(input@) + ")"@,
        },
{
    match chosen {
        Err(why) => Err(exit_with(why, 1)),
        Ok(urn) => match known {
            Err(why) => {
                let mut m = three(
                    "Narrowed to '",
                    &urn,
                    "' but that cap is not in the registry: ",
                );
                add_text(&mut m, &why);
                Err(exit_with(m, 1))
            },
            Ok(concrete) => {
                let mut line = three(name, " → ", &concrete);
                add_text(&mut line, " (input ");
                add_text(&mut line, &input.to_string());
                add_text(&mut line, ")");
                Ok(line)
            },
        },
    }
}

// ---------------------------------------------------------------------------
// The inputs and the plan
// ---------------------------------------------------------------------------

/// Checks what came in over standard input.
pub fn check_stdin(bytes: &Vec<u8>) -> (r: Option<Exit>)
    ensures
        r is None <==> bytes@.len() > 0,
        r matches Some(e) ==> e@ == refusal("stdin was empty — nothing to run the cap on"@, 2),
{
    if bytes.len() == 0 {
        Some(exit_with(owned("stdin was empty — nothing to run the cap on"), 2))
    } else {
        None
    }
}

/// Checks that each path stands for files: `counts` says for how many. The
/// first that stands for none is told.
pub fn check_found(paths: &Vec<String>, counts: &Vec<usize>) -> (r: Option<Exit>)
    requires
        paths@.len() == counts@.len(),
    ensures
        match r {
            None => forall|i: int| 0 <= i < counts@.len() ==> #[trigger] counts@[i] > 0,
            Some(e) => exists|i: int|
                {
                    &&& 0 <= i < counts@.len()
                    &&& #[trigger] counts@[i] == 0
                    &&& forall|j: int| 0 <= j < i ==> #[trigger] counts@[j] > 0
                    &&& e@ == refusal("No input files found at '"@ + paths@[i]@ + "'"@, 1)
                },
        },
{
    let mut i: usize = 0;
    while i < counts.len()
        invariant
            i <= counts@.len(),
            paths@.len() == counts@.len(),
            forall|j: int| 0 <= j < i ==> #[trigger] counts@[j] > 0,
        decreases counts@.len() - i,
    {
        if counts[i] == 0 {
            assert(counts@[i as int] == 0);
            return Some(exit_with(three("No input files found at '", &paths[i], "'"), 1));
        }
        i = i + 1;
    }
    None
}

/// Checks the plan of one cap: it is a single one, with a single input.
/// `inputs_per_plan` says how many inputs each plan has.
pub fn check_single_plan(inputs_per_plan: &Vec<usize>) -> (r: Option<Exit>)
    ensures
        r is None <==> inputs_per_plan@ == seq![1usize],
        r matches Some(e) ==> e@ == refusal(
            if inputs_per_plan@.len() != 1 {
                "internal error: single-cap notation produced "@ + decimal(inputs_per_plan@.len())
                    + " plans (expected 1)"@
            } else {
                "internal error: single-cap plan has "@ + decimal(inputs_per_plan@[0] as nat)
                    + " input slots (expected 1)"@
            },
            1,
        ),
{
    if inputs_per_plan.len() != 1 {
        Some(
            exit_with(
                three(
                    "internal error: single-cap notation produced ",
                    &decimal_text(inputs_per_plan.len() as u64),
                    " plans (expected 1)",
                ),
                1,
            ),
        )
    } else if inputs_per_plan[0] != 1 {
        Some(
            exit_with(
                three(
                    "internal error: single-cap plan has ",
                    &decimal_text(inputs_per_plan[0] as u64),
                    " input slots (expected 1)",
                ),
                1,
            ),
        )
    } else {
        assert(inputs_per_plan@ =~= seq![1usize]);
        None
    }
}

// ---------------------------------------------------------------------------
// Who provides a cap
// ---------------------------------------------------------------------------

/// The end of a search for a cap that no cartridge of the registry provides.
pub fn no_provider(has_registry: bool) -> (r: Exit)
    ensures
        r@ == refusal(
            if has_registry {
                "No registry cartridge provides this cap."@
            } else {
                "No registry cartridge provides this cap (dev build: no cartridge registry baked)."@
            },
            1,
        ),
{
    if has_registry {
        exit_with(owned("No registry cartridge provides this cap."), 1)
    } else {
        exit_with(
            owned(
                "No registry cartridge provides this cap (dev build: no cartridge registry baked).",
            ),
            1,
        )
    }
}

/// A cartridge of the registry as it is listed: with its version, the platform,
/// and what can be said of its build for it; `version` is `None` where the
/// registry does not list it for this channel.
pub fn provider_line(
    id: &str,
    version: Option<&str>,
    platform: &str,
    has_build: bool,
    has_binary: bool,
) -> (r: String)
    ensures
        r@ == (match version {
            Some(v) => "  "@ + id@ + " v"@ + v@ + " ["@ + platform@ + "] — "@ + (if !has_build {
                "no build for this platform"@
            } else if has_binary {
                "signed binary available"@
            } else {
                "NO signed binary (installer-only publish — not runnable via capdag)"@
            }),
            None => "  "@ + id@ + " (not in this channel's registry view)"@,
        }),
{
    match version {
        Some(v) => {
            let mut line = three("  ", id, " v");
            add_text(&mut line, v);
            add_text(&mut line, " [");
            add_text(&mut line, platform);
            add_text(&mut line, "] — ");
            add_text(&mut line, binary_state(has_build, has_binary));
            line
        },
        None => three("  ", id, " (not in this channel's registry view)"),
    }
}

/// The cartridge that is installed for the cap `urn`: the first of those that
/// provide it.
pub fn first_provider(urn: &str, ids: &Vec<String>) -> (r: Result<String, Exit>)
    ensures
        if ids@.len() > 0 {
            r matches Ok(id) && id@ == ids@[0]@
        } else {
            r matches Err(e) && e@ == refusal(
                "No registry cartridge provides cap "@ + urn@,
                1,
            )
        },
{
    if ids.len() > 0 {
        Ok(ids[0].clone())
    } else {
        let mut m = owned("No registry cartridge provides cap ");
        add_text(&mut m, urn);
        Err(exit_with(m, 1))
    }
}

} // verus!
