//! The options of each command, read from the words of a line.
//!
//! Reading stops at the first word that cannot be read. What was read up to
//! there is kept, so that binaries that were named before it are looked at
//! first.

use crate::cli::command::{exit_help, exit_with, help, refusal, three, Exit, ExitView};
use crate::text::{
    add_text, begins, begins_with, cut, cut_at, ends, ends_with, opt_text, owned, same_text, texts,
};
use vstd::prelude::*;

verus! {

broadcast use vstd::string::group_string_axioms;

/// The word asks how the command is used.
pub open spec fn asks_help(word: Seq<char>) -> bool {
    word == "--help"@ || word == "-h"@
}

/// The word names the folder for results.
pub open spec fn is_output_flag(word: Seq<char>) -> bool {
    word == "-o"@ || word == "--output"@
}

/// How the list of local binaries ends.
#[derive(Debug, Clone, Copy, PartialEq, Eq, Structural)]
pub enum BinsEnd {
    /// At a word that starts with two dashes or ends in `.machine`.
    FlagOrMachine,
    /// At a word that starts with two dashes.
    Flag,
    /// At a word that starts with a dash.
    Dash,
}

/// The word ends the list of local binaries.
pub open spec fn ends_bins(word: Seq<char>, end: BinsEnd) -> bool {
    match end {
        BinsEnd::FlagOrMachine => begins(word, "--"@) || ends(word, ".machine"@),
        BinsEnd::Flag => begins(word, "--"@),
        BinsEnd::Dash => begins(word, "-"@),
    }
}

/// Whether the word ends the list of local binaries.
pub fn word_ends_bins(word: &str, end: BinsEnd) -> (r: bool)
    ensures
        r == ends_bins(word@, end),
{
    match end {
        BinsEnd::FlagOrMachine => begins_with(word, "--") || ends_with(word, ".machine"),
        BinsEnd::Flag => begins_with(word, "--"),
        BinsEnd::Dash => begins_with(word, "-"),
    }
}

// ---------------------------------------------------------------------------
// run
// ---------------------------------------------------------------------------

/// The options of a run.
#[derive(Debug)]
pub struct RunOptions {
    pub dev_bins: Vec<String>,
    pub trace: Option<String>,
    pub output: Option<String>,
    pub force: bool,
}

/// The options of a run.
#[verifier::ext_equal]
pub struct RunView {
    pub dev_bins: Seq<Seq<char>>,
    pub trace: Option<Seq<char>>,
    pub output: Option<Seq<char>>,
    pub force: bool,
}

impl View for RunOptions {
    type V = RunView;

    open spec fn view(&self) -> RunView {
        RunView {
            dev_bins: texts(self.dev_bins@),
            trace: opt_text(self.trace),
            output: opt_text(self.output),
            force: self.force,
        }
    }
}

/// No options.
pub open spec fn run_default() -> RunView {
    RunView { dev_bins: Seq::empty(), trace: None, output: None, force: false }
}

/// Reads the words of a run from `i` on: the options, and where the machine
/// file stands. With `bins` the words are local binaries, up to one that ends
/// their list.
pub open spec fn read_run(a: Seq<Seq<char>>, i: int, o: RunView, bins: bool) -> (
    RunView,
    Result<int, ExitView>,
)
    decreases a.len() - i,
{
    if i >= a.len() {
        (o, Err(ExitView { message: "Missing machine file argument"@, usage: true, code: 1 }))
    } else if bins && !ends_bins(a[i], BinsEnd::FlagOrMachine) {
        read_run(a, i + 1, RunView { dev_bins: o.dev_bins.push(a[i]), ..o }, true)
    } else if asks_help(a[i]) {
        (o, Err(help()))
    } else if a[i] == "--trace"@ {
        if i + 1 >= a.len() {
            (o, Err(refusal("--trace requires a file path"@, 1)))
        } else {
            read_run(a, i + 2, RunView { trace: Some(a[i + 1]), ..o }, false)
        }
    } else if is_output_flag(a[i]) {
        if i + 1 >= a.len() {
            (o, Err(refusal("--output requires a directory path"@, 1)))
        } else {
            read_run(a, i + 2, RunView { output: Some(a[i + 1]), ..o }, false)
        }
    } else if a[i] == "--force"@ {
        read_run(a, i + 1, RunView { force: true, ..o }, false)
    } else if a[i] == "--dev-bins"@ {
        read_run(a, i + 1, o, true)
    } else {
        (o, Ok(i))
    }
}

/// What a line for a run says: the options, and where the machine file stands,
/// after which the input files follow.
#[derive(Debug)]
pub struct RunLine {
    pub options: RunOptions,
    pub machine: Result<usize, Exit>,
}

/// The place, or how the command ends.
pub open spec fn place_view(r: Result<usize, Exit>) -> Result<int, ExitView> {
    match r {
        Ok(i) => Ok(i as int),
        Err(e) => Err(e@),
    }
}

/// Reads a line for a run.
pub fn read_run_line(args: &Vec<String>) -> (r: RunLine)
    requires
        args@.len() >= 2,
    ensures
        (r.options@, place_view(r.machine)) == read_run(texts(args@), 2, run_default(), false),
        r.machine matches Ok(i) ==> 2 <= i < args@.len(),
{
    let ghost a = texts(args@);
    let mut o = RunOptions { dev_bins: Vec::new(), trace: None, output: None, force: false };
    let mut bins: bool = false;
    let mut i: usize = 2;
    assert(o@ =~= run_default());
    while i < args.len()
        invariant
            2 <= i <= args@.len(),
            a == texts(args@),
            read_run(a, i as int, o@, bins) == read_run(a, 2, run_default(), false),
        decreases args@.len() - i,
    {
        let word: &str = &args[i];
        assert(word@ == a[i as int]);
        let ghost before = o@;
        if bins && !word_ends_bins(word, BinsEnd::FlagOrMachine) {
            o.dev_bins.push(owned(word));
            assert(texts(o.dev_bins@) =~= before.dev_bins.push(word@));
            assert(o@ =~= RunView { dev_bins: before.dev_bins.push(word@), ..before });
            i = i + 1;
            continue;
        }
        bins = false;
        if same_text(word, "--help") || same_text(word, "-h") {
            return RunLine { options: o, machine: Err(exit_help()) };
        } else if same_text(word, "--trace") {
            if i + 1 >= args.len() {
                return RunLine {
                    options: o,
                    machine: Err(exit_with(owned("--trace requires a file path"), 1)),
                };
            }
            o.trace = Some(args[i + 1].clone());
            assert(o@ =~= RunView { trace: Some(a[i + 1]), ..before });
            i = i + 2;
        } else if same_text(word, "-o") || same_text(word, "--output") {
            if i + 1 >= args.len() {
                return RunLine {
                    options: o,
                    machine: Err(exit_with(owned("--output requires a directory path"), 1)),
                };
            }
            o.output = Some(args[i + 1].clone());
            assert(o@ =~= RunView { output: Some(a[i + 1]), ..before });
            i = i + 2;
        } else if same_text(word, "--force") {
            o.force = true;
            assert(o@ =~= RunView { force: true, ..before });
            i = i + 1;
        } else if same_text(word, "--dev-bins") {
            bins = true;
            i = i + 1;
        } else {
            return RunLine { options: o, machine: Ok(i) };
        }
    }
    RunLine {
        options: o,
        machine: Err(
            Exit { message: owned("Missing machine file argument"), usage: true, code: 1 },
        ),
    }
}

// ---------------------------------------------------------------------------
// A single cap
// ---------------------------------------------------------------------------

/// The options of a cap that is run by itself.
#[derive(Debug)]
pub struct CapOptions {
    /// What is handed on to the cap.
    pub tokens: Vec<String>,
    /// Arguments that are given by name.
    pub pairs: Vec<(String, String)>,
    pub output: Option<String>,
    pub force: bool,
    pub dev_bins: Vec<String>,
    pub trace: Option<String>,
    pub to: Option<String>,
    pub help: bool,
}

/// The options of a cap that is run by itself.
#[verifier::ext_equal]
pub struct CapView {
    pub tokens: Seq<Seq<char>>,
    pub pairs: Seq<(Seq<char>, Seq<char>)>,
    pub output: Option<Seq<char>>,
    pub force: bool,
    pub dev_bins: Seq<Seq<char>>,
    pub trace: Option<Seq<char>>,
    pub to: Option<Seq<char>>,
    pub help: bool,
}

/// The characters of each pair of a list.
pub open spec fn pair_texts(v: Seq<(String, String)>) -> Seq<(Seq<char>, Seq<char>)> {
    Seq::new(v.len(), |i: int| (v[i].0@, v[i].1@))
}

impl View for CapOptions {
    type V = CapView;

    open spec fn view(&self) -> CapView {
        CapView {
            tokens: texts(self.tokens@),
            pairs: pair_texts(self.pairs@),
            output: opt_text(self.output),
            force: self.force,
            dev_bins: texts(self.dev_bins@),
            trace: opt_text(self.trace),
            to: opt_text(self.to),
            help: self.help,
        }
    }
}

/// No options.
pub open spec fn cap_default() -> CapView {
    CapView {
        tokens: Seq::empty(),
        pairs: Seq::empty(),
        output: None,
        force: false,
        dev_bins: Seq::empty(),
        trace: None,
        to: None,
        help: false,
    }
}

/// Reads the words after a cap from `i` on. What is no option of the program
/// is the cap's own. With `bins` the words are local binaries, up to one that
/// ends their list.
pub open spec fn read_cap(a: Seq<Seq<char>>, i: int, o: CapView, bins: bool) -> (
    CapView,
    Option<ExitView>,
)
    decreases a.len() - i,
{
    if i >= a.len() {
        (o, None)
    } else if bins && !ends_bins(a[i], BinsEnd::Dash) {
        read_cap(a, i + 1, CapView { dev_bins: o.dev_bins.push(a[i]), ..o }, true)
    } else if asks_help(a[i]) {
        read_cap(a, i + 1, CapView { help: true, ..o }, false)
    } else if is_output_flag(a[i]) {
        if i + 1 >= a.len() {
            (o, Some(refusal("--output requires a directory path"@, 2)))
        } else {
            read_cap(a, i + 2, CapView { output: Some(a[i + 1]), ..o }, false)
        }
    } else if a[i] == "--force"@ {
        read_cap(a, i + 1, CapView { force: true, ..o }, false)
    } else if a[i] == "--arg"@ {
        if i + 1 >= a.len() {
            (o, Some(refusal("--arg requires <name-or-media-urn>=<value>"@, 2)))
        } else {
            match cut(a[i + 1], '=') {
                Some(pair) => read_cap(a, i + 2, CapView { pairs: o.pairs.push(pair), ..o }, false),
                None => (
                    o,
                    Some(
                        refusal(
                            "--arg '"@ + a[i + 1] + "' is not of the form <name>=<value>"@,
                            2,
                        ),
                    ),
                ),
            }
        }
    } else if a[i] == "--trace"@ {
        if i + 1 >= a.len() {
            (o, Some(refusal("--trace requires a file path"@, 2)))
        } else {
            read_cap(a, i + 2, CapView { trace: Some(a[i + 1]), ..o }, false)
        }
    } else if a[i] == "--to"@ {
        if i + 1 >= a.len() {
            (
                o,
                Some(
                    refusal(
                        "--to requires a target (an extension like `png`, a media URN, or `media:...`)"@,
                        2,
                    ),
                ),
            )
        } else {
            read_cap(a, i + 2, CapView { to: Some(a[i + 1]), ..o }, false)
        }
    } else if a[i] == "--dev-bins"@ {
        read_cap(a, i + 1, o, true)
    } else {
        read_cap(a, i + 1, CapView { tokens: o.tokens.push(a[i]), ..o }, false)
    }
}

/// How the command ends, if it does.
pub open spec fn end_view(r: Option<Exit>) -> Option<ExitView> {
    match r {
        Some(e) => Some(e@),
        None => None,
    }
}

/// Reads a line that names a cap: the options, and how it ends if it cannot be
/// read.
pub fn read_cap_line(args: &Vec<String>) -> (r: (CapOptions, Option<Exit>))
    requires
        args@.len() >= 2,
    ensures
        (r.0@, end_view(r.1)) == read_cap(texts(args@), 2, cap_default(), false),
{
    let ghost a = texts(args@);
    let mut o = CapOptions {
        tokens: Vec::new(),
        pairs: Vec::new(),
        output: None,
        force: false,
        dev_bins: Vec::new(),
        trace: None,
        to: None,
        help: false,
    };
    let mut bins: bool = false;
    let mut i: usize = 2;
    assert(o@ =~= cap_default());
    while i < args.len()
        invariant
            2 <= i <= args@.len(),
            a == texts(args@),
            read_cap(a, i as int, o@, bins) == read_cap(a, 2, cap_default(), false),
        decreases args@.len() - i,
    {
        let word: &str = &args[i];
        assert(word@ == a[i as int]);
        let ghost before = o@;
        if bins && !word_ends_bins(word, BinsEnd::Dash) {
            o.dev_bins.push(owned(word));
            assert(texts(o.dev_bins@) =~= before.dev_bins.push(word@));
            assert(o@ =~= CapView { dev_bins: before.dev_bins.push(word@), ..before });
            i = i + 1;
            continue;
        }
        bins = false;
        if same_text(word, "--help") || same_text(word, "-h") {
            o.help = true;
            assert(o@ =~= CapView { help: true, ..before });
            i = i + 1;
        } else if same_text(word, "-o") || same_text(word, "--output") {
            if i + 1 >= args.len() {
                return (o, Some(exit_with(owned("--output requires a directory path"), 2)));
            }
            o.output = Some(args[i + 1].clone());
            assert(o@ =~= CapView { output: Some(a[i + 1]), ..before });
            i = i + 2;
        } else if same_text(word, "--force") {
            o.force = true;
            assert(o@ =~= CapView { force: true, ..before });
            i = i + 1;
        } else if same_text(word, "--arg") {
            if i + 1 >= args.len() {
                return (o, Some(exit_with(owned("--arg requires <name-or-media-urn>=<value>"), 2)));
            }
            match cut_at(&args[i + 1], '=') {
                Some(pair) => {
                    let ghost p = (pair.0@, pair.1@);
                    o.pairs.push(pair);
                    assert(pair_texts(o.pairs@) =~= before.pairs.push(p));
                    assert(o@ =~= CapView { pairs: before.pairs.push(p), ..before });
                },
                None => {
                    let m = three("--arg '", &args[i + 1], "' is not of the form <name>=<value>");
                    return (o, Some(exit_with(m, 2)));
                },
            }
            i = i + 2;
        } else if same_text(word, "--trace") {
            if i + 1 >= args.len() {
                return (o, Some(exit_with(owned("--trace requires a file path"), 2)));
            }
            o.trace = Some(args[i + 1].clone());
            assert(o@ =~= CapView { trace: Some(a[i + 1]), ..before });
            i = i + 2;
        } else if same_text(word, "--to") {
            if i + 1 >= args.len() {
                return (
                    o,
                    Some(
                        exit_with(
                            owned(
                                "--to requires a target (an extension like `png`, a media URN, or `media:...`)",
                            ),
                            2,
                        ),
                    ),
                );
            }
            o.to = Some(args[i + 1].clone());
            assert(o@ =~= CapView { to: Some(a[i + 1]), ..before });
            i = i + 2;
        } else if same_text(word, "--dev-bins") {
            bins = true;
            i = i + 1;
        } else {
            o.tokens.push(owned(word));
            assert(texts(o.tokens@) =~= before.tokens.push(word@));
            assert(o@ =~= CapView { tokens: before.tokens.push(word@), ..before });
            i = i + 1;
        }
    }
    (o, None)
}

// ---------------------------------------------------------------------------
// new
// ---------------------------------------------------------------------------

/// A new project: its name, and the folder that it goes into.
#[derive(Debug, PartialEq, Eq)]
pub struct NewOptions {
    pub name: String,
    pub parent: String,
}

/// Reads the words for a new project from `i` on.
pub open spec fn read_new(
    a: Seq<Seq<char>>,
    i: int,
    name: Option<Seq<char>>,
    parent: Seq<char>,
) -> Result<(Seq<char>, Seq<char>), ExitView>
    decreases a.len() - i,
{
    if i >= a.len() {
        match name {
            Some(n) => Ok((n, parent)),
            None => Err(
                refusal("Usage: "@ + a[0] + " new <name> [--python] [-o <dir>]"@, 2),
            ),
        }
    } else if a[i] == "--python"@ {
        read_new(a, i + 1, name, parent)
    } else if is_output_flag(a[i]) {
        if i + 1 >= a.len() {
            Err(refusal("--output requires a directory path"@, 2))
        } else {
            read_new(a, i + 2, name, a[i + 1])
        }
    } else if begins(a[i], "--"@) {
        Err(
            refusal(
                "Unknown option '"@ + a[i] + "' for `new` (only --python is supported)."@,
                2,
            ),
        )
    } else if name is None {
        read_new(a, i + 1, Some(a[i]), parent)
    } else {
        Err(refusal("Unexpected argument '"@ + a[i] + "' for `new`."@, 2))
    }
}

/// Reads a line for a new project.
pub fn read_new_line(args: &Vec<String>) -> (r: Result<NewOptions, Exit>)
    requires
        args@.len() >= 2,
    ensures
        match r {
            Ok(o) => read_new(texts(args@), 2, None, "."@) == Ok::<
                (Seq<char>, Seq<char>),
                ExitView,
            >((o.name@, o.parent@)),
            Err(e) => read_new(texts(args@), 2, None, "."@) == Err::<
                (Seq<char>, Seq<char>),
                ExitView,
            >(e@),
        },
{
    let ghost a = texts(args@);
    let mut name: Option<String> = None;
    let mut parent: String = owned(".");
    let mut i: usize = 2;
    while i < args.len()
        invariant
            2 <= i <= args@.len(),
            a == texts(args@),
            read_new(a, i as int, opt_text(name), parent@) == read_new(a, 2, None, "."@),
        decreases args@.len() - i,
    {
        let word: &str = &args[i];
        assert(word@ == a[i as int]);
        if same_text(word, "--python") {
            i = i + 1;
        } else if same_text(word, "-o") || same_text(word, "--output") {
            if i + 1 >= args.len() {
                return Err(exit_with(owned("--output requires a directory path"), 2));
            }
            parent = args[i + 1].clone();
            assert(parent@ == a[i + 1]);
            i = i + 2;
        } else if begins_with(word, "--") {
            return Err(
                exit_with(
                    three(
                        "Unknown option '",
                        word,
                        "' for `new` (only --python is supported).",
                    ),
                    2,
                ),
            );
        } else if name.is_none() {
            name = Some(owned(word));
            i = i + 1;
        } else {
            return Err(exit_with(three("Unexpected argument '", word, "' for `new`."), 2));
        }
    }
    match name {
        Some(name) => Ok(NewOptions { name, parent }),
        None => {
            assert(a[0] == args@[0]@);
            Err(exit_with(three("Usage: ", &args[0], " new <name> [--python] [-o <dir>]"), 2))
        },
    }
}

// ---------------------------------------------------------------------------
// dag-viz
// ---------------------------------------------------------------------------

/// A diagram of a machine: of which file, and in which format.
#[derive(Debug, PartialEq, Eq)]
pub struct VizOptions {
    pub machine: String,
    /// In the format of `dot`, and not of Mermaid.
    pub dot: bool,
}

/// How the diagram command is used.
pub open spec fn viz_usage(program: Seq<char>) -> Seq<char> {
    "Usage: "@ + program + " dag-viz <machine-file> [--mermaid|--dot]"@
}

/// Reads the words for a diagram from `i` on.
pub open spec fn read_viz(
    a: Seq<Seq<char>>,
    i: int,
    machine: Option<Seq<char>>,
    dot: bool,
) -> Result<(Seq<char>, bool), ExitView>
    decreases a.len() - i,
{
    if i >= a.len() {
        match machine {
            Some(m) => Ok((m, dot)),
            None => Err(refusal(viz_usage(a[0]), 2)),
        }
    } else if a[i] == "--mermaid"@ {
        read_viz(a, i + 1, machine, false)
    } else if a[i] == "--dot"@ {
        read_viz(a, i + 1, machine, true)
    } else if asks_help(a[i]) {
        Err(help())
    } else if begins(a[i], "-"@) {
        Err(refusal("Unknown dag-viz option '"@ + a[i] + "'.\n"@ + viz_usage(a[0]), 2))
    } else if machine is Some {
        Err(refusal("dag-viz takes a single machine file."@, 2))
    } else {
        read_viz(a, i + 1, Some(a[i]), dot)
    }
}

/// Reads a line for a diagram.
pub fn read_viz_line(args: &Vec<String>) -> (r: Result<VizOptions, Exit>)
    requires
        args@.len() >= 2,
    ensures
        match r {
            Ok(o) => read_viz(texts(args@), 2, None, false) == Ok::<(Seq<char>, bool), ExitView>(
                (o.machine@, o.dot),
            ),
            Err(e) => read_viz(texts(args@), 2, None, false) == Err::<(Seq<char>, bool), ExitView>(
                e@,
            ),
        },
{
    let ghost a = texts(args@);
    assert(a[0] == args@[0]@);
    let mut machine: Option<String> = None;
    let mut dot: bool = false;
    let mut i: usize = 2;
    while i < args.len()
        invariant
            2 <= i <= args@.len(),
            a == texts(args@),
            a[0] == args@[0]@,
            read_viz(a, i as int, opt_text(machine), dot) == read_viz(a, 2, None, false),
        decreases args@.len() - i,
    {
        let word: &str = &args[i];
        assert(word@ == a[i as int]);
        if same_text(word, "--mermaid") {
            dot = false;
        } else if same_text(word, "--dot") {
            dot = true;
        } else if same_text(word, "--help") || same_text(word, "-h") {
            return Err(exit_help());
        } else if begins_with(word, "-") {
            let mut m = three("Unknown dag-viz option '", word, "'.\n");
            let u = three("Usage: ", &args[0], " dag-viz <machine-file> [--mermaid|--dot]");
            add_text(&mut m, &u);
            return Err(exit_with(m, 2));
        } else if machine.is_some() {
            return Err(exit_with(owned("dag-viz takes a single machine file."), 2));
        } else {
            machine = Some(owned(word));
        }
        i = i + 1;
    }
    match machine {
        Some(machine) => Ok(VizOptions { machine, dot }),
        None => Err(
            exit_with(three("Usage: ", &args[0], " dag-viz <machine-file> [--mermaid|--dot]"), 2),
        ),
    }
}

// ---------------------------------------------------------------------------
// resolve
// ---------------------------------------------------------------------------

/// The caps to resolve, and whether past the cache.
#[derive(Debug, PartialEq, Eq)]
pub struct ResolveOptions {
    pub tokens: Vec<String>,
    pub no_cache: bool,
}

/// The words that do not start with a dash.
pub open spec fn plain_words(a: Seq<Seq<char>>) -> Seq<Seq<char>>
    decreases a.len(),
{
    if a.len() == 0 {
        Seq::empty()
    } else if begins(a.last(), "-"@) {
        plain_words(a.drop_last())
    } else {
        plain_words(a.drop_last()).push(a.last())
    }
}

/// Reads a line that asks for caps to be resolved.
pub fn read_resolve_line(args: &Vec<String>) -> (r: Result<ResolveOptions, Exit>)
    requires
        args@.len() >= 2,
    ensures
        ({
            let words = texts(args@).subrange(2, args@.len() as int);
            match r {
                Ok(o) => plain_words(words).len() > 0 && texts(o.tokens@) == plain_words(words)
                    && o.no_cache == words.contains("--no-cache"@),
                Err(e) => plain_words(words).len() == 0 && e@ == refusal(
                    "Usage: "@ + args@[0]@ + " resolve [--no-cache] <cap-alias-or-urn>..."@,
                    2,
                ),
            }
        }),
{
    let ghost words = texts(args@).subrange(2, args@.len() as int);
    let mut tokens: Vec<String> = Vec::new();
    let mut no_cache: bool = false;
    let mut i: usize = 2;
    assert(words.subrange(0, 0) =~= Seq::<Seq<char>>::empty());
    assert(texts(tokens@) =~= Seq::<Seq<char>>::empty());
    while i < args.len()
        invariant
            2 <= i <= args@.len(),
            words == texts(args@).subrange(2, args@.len() as int),
            texts(tokens@) == plain_words(words.subrange(0, i - 2)),
            no_cache == words.subrange(0, i - 2).contains("--no-cache"@),
        decreases args@.len() - i,
    {
        let word: &str = &args[i];
        let ghost upto = words.subrange(0, i - 1);
        assert(upto.drop_last() =~= words.subrange(0, i - 2));
        assert(upto.last() == word@);
        let ghost before = texts(tokens@);
        if !begins_with(word, "-") {
            tokens.push(owned(word));
            assert(texts(tokens@) =~= before.push(word@));
        }
        let ghost had = no_cache;
        if same_text(word, "--no-cache") {
            no_cache = true;
            assert(upto[i - 2] == "--no-cache"@);
        }
        proof {
            let shorter = words.subrange(0, i - 2);
            if upto.contains("--no-cache"@) && word@ != "--no-cache"@ {
                let k = choose|k: int| 0 <= k < upto.len() && upto[k] == "--no-cache"@;
                assert(shorter[k] == "--no-cache"@);
            }
            if shorter.contains("--no-cache"@) {
                let k = choose|k: int| 0 <= k < shorter.len() && shorter[k] == "--no-cache"@;
                assert(upto[k] == "--no-cache"@);
            }
        }
        i = i + 1;
    }
    assert(words.subrange(0, words.len() as int) =~= words);
    if tokens.len() == 0 {
        assert(texts(tokens@).len() == 0);
        return Err(
            exit_with(
                three("Usage: ", &args[0], " resolve [--no-cache] <cap-alias-or-urn>..."),
                2,
            ),
        );
    }
    assert(texts(tokens@).len() == tokens@.len());
    Ok(ResolveOptions { tokens, no_cache })
}

/// What a cap that is run by itself is run on.
#[derive(Debug, PartialEq, Eq)]
pub enum InputSource {
    Files,
    Stdin,
}

/// What a cap is run on: the files that were named; else what is piped in, if
/// anything can be.
pub fn input_source(
    named_files: usize,
    stdin_is_terminal: bool,
    cap_urn: &str,
    program: &str,
    token: &str,
) -> (r: Result<InputSource, Exit>)
    ensures
        match r {
            Ok(InputSource::Files) => named_files > 0,
            Ok(InputSource::Stdin) => named_files == 0 && !stdin_is_terminal,
            Err(e) => named_files == 0 && stdin_is_terminal && e@ == refusal(
                "cap "@ + cap_urn@ + " needs input: pipe it in (cat doc.pdf | "@ + program@ + " "@
                    + token@ + ") or pass file path(s)."@,
                2,
            ),
        },
{
    if named_files > 0 {
        return Ok(InputSource::Files);
    }
    if stdin_is_terminal {
        let mut m = three("cap ", cap_urn, " needs input: pipe it in (cat doc.pdf | ");
        add_text(&mut m, program);
        add_text(&mut m, " ");
        add_text(&mut m, token);
        add_text(&mut m, ") or pass file path(s).");
        return Err(exit_with(m, 2));
    }
    Ok(InputSource::Stdin)
}

// ---------------------------------------------------------------------------
// What each word does
// ---------------------------------------------------------------------------

/// The options are different words, and start with a dash.
proof fn lemma_option_words()
    ensures
        "--help"@ != "-h"@,
        "--help"@ != "--trace"@,
        "--help"@ != "-o"@,
        "--help"@ != "--output"@,
        "--help"@ != "--force"@,
        "--help"@ != "--dev-bins"@,
        "--help"@ != "--arg"@,
        "--help"@ != "--to"@,
        "--help"@ != "--python"@,
        "--help"@ != "--mermaid"@,
        "--help"@ != "--dot"@,
        "-h"@ != "--trace"@,
        "-h"@ != "-o"@,
        "-h"@ != "--output"@,
        "-h"@ != "--force"@,
        "-h"@ != "--dev-bins"@,
        "-h"@ != "--arg"@,
        "-h"@ != "--to"@,
        "-h"@ != "--python"@,
        "-h"@ != "--mermaid"@,
        "-h"@ != "--dot"@,
        "--trace"@ != "-o"@,
        "--trace"@ != "--output"@,
        "--trace"@ != "--force"@,
        "--trace"@ != "--dev-bins"@,
        "--trace"@ != "--arg"@,
        "--trace"@ != "--to"@,
        "--trace"@ != "--python"@,
        "--trace"@ != "--mermaid"@,
        "--trace"@ != "--dot"@,
        "-o"@ != "--output"@,
        "-o"@ != "--force"@,
        "-o"@ != "--dev-bins"@,
        "-o"@ != "--arg"@,
        "-o"@ != "--to"@,
        "-o"@ != "--python"@,
        "-o"@ != "--mermaid"@,
        "-o"@ != "--dot"@,
        "--output"@ != "--force"@,
        "--output"@ != "--dev-bins"@,
        "--output"@ != "--arg"@,
        "--output"@ != "--to"@,
        "--output"@ != "--python"@,
        "--output"@ != "--mermaid"@,
        "--output"@ != "--dot"@,
        "--force"@ != "--dev-bins"@,
        "--force"@ != "--arg"@,
        "--force"@ != "--to"@,
        "--force"@ != "--python"@,
        "--force"@ != "--mermaid"@,
        "--force"@ != "--dot"@,
        "--dev-bins"@ != "--arg"@,
        "--dev-bins"@ != "--to"@,
        "--dev-bins"@ != "--python"@,
        "--dev-bins"@ != "--mermaid"@,
        "--dev-bins"@ != "--dot"@,
        "--arg"@ != "--to"@,
        "--arg"@ != "--python"@,
        "--arg"@ != "--mermaid"@,
        "--arg"@ != "--dot"@,
        "--to"@ != "--python"@,
        "--to"@ != "--mermaid"@,
        "--to"@ != "--dot"@,
        "--python"@ != "--mermaid"@,
        "--python"@ != "--dot"@,
        "--mermaid"@ != "--dot"@,
        forall|w: Seq<char>| !begins(w, "-"@) ==> !#[trigger] asks_help(w) && !is_output_flag(w),
        begins("--help"@, "-"@),
        begins("-h"@, "-"@),
        begins("--trace"@, "-"@),
        begins("-o"@, "-"@),
        begins("--output"@, "-"@),
        begins("--force"@, "-"@),
        begins("--dev-bins"@, "-"@),
        begins("--arg"@, "-"@),
        begins("--to"@, "-"@),
        begins("--python"@, "-"@),
        begins("--mermaid"@, "-"@),
        begins("--dot"@, "-"@),
        begins("--help"@, "--"@),
        begins("--trace"@, "--"@),
        begins("--output"@, "--"@),
        begins("--force"@, "--"@),
        begins("--dev-bins"@, "--"@),
        begins("--arg"@, "--"@),
        begins("--to"@, "--"@),
        begins("--python"@, "--"@),
        begins("--mermaid"@, "--"@),
        begins("--dot"@, "--"@),
{
    reveal_strlit("-");
    reveal_strlit("--");
    reveal_strlit("--help");
    reveal_strlit("-h");
    reveal_strlit("--trace");
    reveal_strlit("-o");
    reveal_strlit("--output");
    reveal_strlit("--force");
    reveal_strlit("--dev-bins");
    reveal_strlit("--arg");
    reveal_strlit("--to");
    reveal_strlit("--python");
    reveal_strlit("--mermaid");
    reveal_strlit("--dot");
    assert("--help"@.len() != "-h"@.len());
    assert("--help"@.len() != "--trace"@.len());
    assert("--help"@.len() != "-o"@.len());
    assert("--help"@.len() != "--output"@.len());
    assert("--help"@.len() != "--force"@.len());
    assert("--help"@.len() != "--dev-bins"@.len());
    assert("--help"@.len() != "--arg"@.len());
    assert("--help"@.len() != "--to"@.len());
    assert("--help"@.len() != "--python"@.len());
    assert("--help"@.len() != "--mermaid"@.len());
    assert("--help"@.len() != "--dot"@.len());
    assert("-h"@.len() != "--trace"@.len());
    assert("-h"@.len() != "--output"@.len());
    assert("-h"@.len() != "--force"@.len());
    assert("-h"@.len() != "--dev-bins"@.len());
    assert("-h"@.len() != "--arg"@.len());
    assert("-h"@.len() != "--to"@.len());
    assert("-h"@.len() != "--python"@.len());
    assert("-h"@.len() != "--mermaid"@.len());
    assert("-h"@.len() != "--dot"@.len());
    assert("--trace"@.len() != "-o"@.len());
    assert("--trace"@.len() != "--output"@.len());
    assert("--trace"@.len() != "--dev-bins"@.len());
    assert("--trace"@.len() != "--arg"@.len());
    assert("--trace"@.len() != "--to"@.len());
    assert("--trace"@.len() != "--python"@.len());
    assert("--trace"@.len() != "--mermaid"@.len());
    assert("--trace"@.len() != "--dot"@.len());
    assert("-o"@.len() != "--output"@.len());
    assert("-o"@.len() != "--force"@.len());
    assert("-o"@.len() != "--dev-bins"@.len());
    assert("-o"@.len() != "--arg"@.len());
    assert("-o"@.len() != "--to"@.len());
    assert("-o"@.len() != "--python"@.len());
    assert("-o"@.len() != "--mermaid"@.len());
    assert("-o"@.len() != "--dot"@.len());
    assert("--output"@.len() != "--force"@.len());
    assert("--output"@.len() != "--dev-bins"@.len());
    assert("--output"@.len() != "--arg"@.len());
    assert("--output"@.len() != "--to"@.len());
    assert("--output"@.len() != "--mermaid"@.len());
    assert("--output"@.len() != "--dot"@.len());
    assert("--force"@.len() != "--dev-bins"@.len());
    assert("--force"@.len() != "--arg"@.len());
    assert("--force"@.len() != "--to"@.len());
    assert("--force"@.len() != "--python"@.len());
    assert("--force"@.len() != "--mermaid"@.len());
    assert("--force"@.len() != "--dot"@.len());
    assert("--dev-bins"@.len() != "--arg"@.len());
    assert("--dev-bins"@.len() != "--to"@.len());
    assert("--dev-bins"@.len() != "--python"@.len());
    assert("--dev-bins"@.len() != "--mermaid"@.len());
    assert("--dev-bins"@.len() != "--dot"@.len());
    assert("--arg"@.len() != "--to"@.len());
    assert("--arg"@.len() != "--python"@.len());
    assert("--arg"@.len() != "--mermaid"@.len());
    assert("--to"@.len() != "--python"@.len());
    assert("--to"@.len() != "--mermaid"@.len());
    assert("--to"@.len() != "--dot"@.len());
    assert("--python"@.len() != "--mermaid"@.len());
    assert("--python"@.len() != "--dot"@.len());
    assert("--mermaid"@.len() != "--dot"@.len());
    assert("-h"@[1] != "-o"@[1]);
    assert("--trace"@[2] != "--force"@[2]);
    assert("--output"@[2] != "--python"@[2]);
    assert("--arg"@[2] != "--dot"@[2]);
    assert("--help"@.subrange(0, 1) =~= "-"@);
    assert("-h"@.subrange(0, 1) =~= "-"@);
    assert("--trace"@.subrange(0, 1) =~= "-"@);
    assert("-o"@.subrange(0, 1) =~= "-"@);
    assert("--output"@.subrange(0, 1) =~= "-"@);
    assert("--force"@.subrange(0, 1) =~= "-"@);
    assert("--dev-bins"@.subrange(0, 1) =~= "-"@);
    assert("--arg"@.subrange(0, 1) =~= "-"@);
    assert("--to"@.subrange(0, 1) =~= "-"@);
    assert("--python"@.subrange(0, 1) =~= "-"@);
    assert("--mermaid"@.subrange(0, 1) =~= "-"@);
    assert("--dot"@.subrange(0, 1) =~= "-"@);
    assert("--help"@.subrange(0, 2) =~= "--"@);
    assert("--trace"@.subrange(0, 2) =~= "--"@);
    assert("--output"@.subrange(0, 2) =~= "--"@);
    assert("--force"@.subrange(0, 2) =~= "--"@);
    assert("--dev-bins"@.subrange(0, 2) =~= "--"@);
    assert("--arg"@.subrange(0, 2) =~= "--"@);
    assert("--to"@.subrange(0, 2) =~= "--"@);
    assert("--python"@.subrange(0, 2) =~= "--"@);
    assert("--mermaid"@.subrange(0, 2) =~= "--"@);
    assert("--dot"@.subrange(0, 2) =~= "--"@);
}

/// Law: on a line for a run each option sets its own field and nothing else,
/// whatever stands before and behind it. The first word that is neither an
/// option nor its value is the machine file.
pub proof fn law_run_option_sets_its_own_field(a: Seq<Seq<char>>, i: int, o: RunView)
    requires
        0 <= i < a.len(),
    ensures
        ({
            let got = read_run(a, i, o, false);
            let has_value = i + 1 < a.len();
            &&& a[i] == "--trace"@ && has_value ==> got == read_run(
                a,
                i + 2,
                RunView { trace: Some(a[i + 1]), ..o },
                false,
            )
            &&& (a[i] == "-o"@ || a[i] == "--output"@) && has_value ==> got == read_run(
                a,
                i + 2,
                RunView { output: Some(a[i + 1]), ..o },
                false,
            )
            &&& (a[i] == "--trace"@ || a[i] == "-o"@ || a[i] == "--output"@) && !has_value
                ==> got.0 == o && (got.1 matches Err(e) && e.code == 1 && !e.usage)
            &&& a[i] == "--force"@ ==> got == read_run(
                a,
                i + 1,
                RunView { force: true, ..o },
                false,
            )
            &&& (a[i] == "--help"@ || a[i] == "-h"@) ==> got.0 == o && (got.1 matches Err(e)
                && e.code == 0 && e.usage)
            &&& !begins(a[i], "-"@) ==> got == (o, Ok::<int, ExitView>(i))
        }),
{
    lemma_option_words();
    assert(!begins(a[i], "-"@) ==> !asks_help(a[i]));
}

proof fn lemma_run_bins(a: Seq<Seq<char>>, i: int, j: int, o: RunView)
    requires
        0 <= i <= j <= a.len(),
        forall|k: int|
            i <= k < j ==> !begins(#[trigger] a[k], "--"@) && !ends(a[k], ".machine"@),
        j < a.len() ==> begins(a[j], "--"@) || ends(a[j], ".machine"@),
    ensures
        read_run(a, i, o, true) == read_run(
            a,
            j,
            RunView { dev_bins: o.dev_bins + a.subrange(i, j), ..o },
            false,
        ),
    decreases j - i,
{
    if i == j {
        assert(o.dev_bins + a.subrange(i, j) =~= o.dev_bins);
    } else {
        lemma_run_bins(a, i + 1, j, RunView { dev_bins: o.dev_bins.push(a[i]), ..o });
        assert(o.dev_bins.push(a[i]) + a.subrange(i + 1, j) =~= o.dev_bins + a.subrange(i, j));
    }
}

/// Law: on a line for a run the words behind `--dev-bins`, up to one that starts
/// with two dashes or names a machine file, are local binaries in that order.
pub proof fn law_run_takes_local_binaries(a: Seq<Seq<char>>, i: int, j: int, o: RunView)
    requires
        0 <= i < j <= a.len(),
        a[i] == "--dev-bins"@,
        forall|k: int|
            i < k < j ==> !begins(#[trigger] a[k], "--"@) && !ends(a[k], ".machine"@),
        j < a.len() ==> begins(a[j], "--"@) || ends(a[j], ".machine"@),
    ensures
        read_run(a, i, o, false) == read_run(
            a,
            j,
            RunView { dev_bins: o.dev_bins + a.subrange(i + 1, j), ..o },
            false,
        ),
{
    lemma_option_words();
    lemma_run_bins(a, i + 1, j, o);
}

/// Law: on a line that names a cap each option sets its own field and nothing
/// else, whatever stands before and behind it. A word that is no option is
/// handed on to the cap.
pub proof fn law_cap_option_sets_its_own_field(a: Seq<Seq<char>>, i: int, o: CapView)
    requires
        0 <= i < a.len(),
    ensures
        ({
            let got = read_cap(a, i, o, false);
            let has_value = i + 1 < a.len();
            &&& a[i] == "--trace"@ && has_value ==> got == read_cap(
                a,
                i + 2,
                CapView { trace: Some(a[i + 1]), ..o },
                false,
            )
            &&& (a[i] == "-o"@ || a[i] == "--output"@) && has_value ==> got == read_cap(
                a,
                i + 2,
                CapView { output: Some(a[i + 1]), ..o },
                false,
            )
            &&& a[i] == "--to"@ && has_value ==> got == read_cap(
                a,
                i + 2,
                CapView { to: Some(a[i + 1]), ..o },
                false,
            )
            &&& (a[i] == "--trace"@ || a[i] == "-o"@ || a[i] == "--output"@ || a[i] == "--to"@
                || a[i] == "--arg"@) && !has_value ==> got.0 == o && (got.1 matches Some(e)
                && e.code == 2 && !e.usage)
            &&& a[i] == "--force"@ ==> got == read_cap(
                a,
                i + 1,
                CapView { force: true, ..o },
                false,
            )
            &&& (a[i] == "--help"@ || a[i] == "-h"@) ==> got == read_cap(
                a,
                i + 1,
                CapView { help: true, ..o },
                false,
            )
            &&& !begins(a[i], "-"@) ==> got == read_cap(
                a,
                i + 1,
                CapView { tokens: o.tokens.push(a[i]), ..o },
                false,
            )
        }),
{
    lemma_option_words();
    assert(!begins(a[i], "-"@) ==> !asks_help(a[i]));
}

/// Law: `--arg name=value` gives the cap that argument by that name, split at
/// the first equals sign; a word without one is refused.
pub proof fn law_cap_argument_is_given_by_name(
    a: Seq<Seq<char>>,
    i: int,
    o: CapView,
    name: Seq<char>,
    value: Seq<char>,
)
    requires
        0 <= i,
        i + 1 < a.len(),
        a[i] == "--arg"@,
    ensures
        a[i + 1] == name + seq!['='] + value && !name.contains('=') ==> read_cap(a, i, o, false)
            == read_cap(a, i + 2, CapView { pairs: o.pairs.push((name, value)), ..o }, false),
        !a[i + 1].contains('=') ==> {
            let got = read_cap(a, i, o, false);
            got.0 == o && (got.1 matches Some(e) && e.code == 2)
        },
{
    lemma_option_words();
    let word = a[i + 1];
    if word == name + seq!['='] + value && !name.contains('=') {
        lemma_cut_at_first(name, '=', value);
    }
    if !word.contains('=') {
        lemma_cut_none(word, '=');
    }
}

proof fn lemma_cut_at_first(name: Seq<char>, c: char, value: Seq<char>)
    requires
        !name.contains(c),
    ensures
        cut(name + seq![c] + value, c) == Some((name, value)),
    decreases name.len(),
{
    let s = name + seq![c] + value;
    if name.len() == 0 {
        assert(s[0] == c);
        assert(s.subrange(1, s.len() as int) =~= value);
        assert(name =~= Seq::<char>::empty());
    } else {
        assert(name.contains(name[0]));
        let rest = name.drop_first();
        assert forall|k: int| 0 <= k < rest.len() implies rest[k] != c by {
            assert(name.contains(name[k + 1]));
        }
        lemma_cut_at_first(rest, c, value);
        assert(s.subrange(1, s.len() as int) =~= rest + seq![c] + value);
        assert(s.drop_first() =~= rest + seq![c] + value);
        assert(name =~= seq![name[0]] + rest);
        assert(s[0] == name[0]);
    }
}

proof fn lemma_cut_none(s: Seq<char>, c: char)
    requires
        !s.contains(c),
    ensures
        cut(s, c) is None,
    decreases s.len(),
{
    if s.len() > 0 {
        assert(s.contains(s[0]));
        let rest = s.subrange(1, s.len() as int);
        assert forall|k: int| 0 <= k < rest.len() implies rest[k] != c by {
            assert(s.contains(s[k + 1]));
        }
        lemma_cut_none(rest, c);
    }
}

proof fn lemma_cap_bins(a: Seq<Seq<char>>, i: int, j: int, o: CapView)
    requires
        0 <= i <= j <= a.len(),
        forall|k: int| i <= k < j ==> !begins(#[trigger] a[k], "-"@),
        j < a.len() ==> begins(a[j], "-"@),
    ensures
        read_cap(a, i, o, true) == read_cap(
            a,
            j,
            CapView { dev_bins: o.dev_bins + a.subrange(i, j), ..o },
            false,
        ),
    decreases j - i,
{
    if i == j {
        assert(o.dev_bins + a.subrange(i, j) =~= o.dev_bins);
    } else {
        lemma_cap_bins(a, i + 1, j, CapView { dev_bins: o.dev_bins.push(a[i]), ..o });
        assert(o.dev_bins.push(a[i]) + a.subrange(i + 1, j) =~= o.dev_bins + a.subrange(i, j));
    }
}

/// Law: on a line that names a cap the words behind `--dev-bins`, up to one that
/// starts with a dash, are local binaries in that order.
pub proof fn law_cap_takes_local_binaries(a: Seq<Seq<char>>, i: int, j: int, o: CapView)
    requires
        0 <= i < j <= a.len(),
        a[i] == "--dev-bins"@,
        forall|k: int| i < k < j ==> !begins(#[trigger] a[k], "-"@),
        j < a.len() ==> begins(a[j], "-"@),
    ensures
        read_cap(a, i, o, false) == read_cap(
            a,
            j,
            CapView { dev_bins: o.dev_bins + a.subrange(i + 1, j), ..o },
            false,
        ),
{
    lemma_option_words();
    lemma_cap_bins(a, i + 1, j, o);
}

/// Law: on a line for a new project the folder is what follows `-o`, the name is
/// the one word that is no option, and neither stands for the other.
pub proof fn law_new_line_names_the_project(
    a: Seq<Seq<char>>,
    i: int,
    name: Option<Seq<char>>,
    parent: Seq<char>,
)
    requires
        0 <= i <= a.len(),
    ensures
        ({
            let got = read_new(a, i, name, parent);
            &&& i == a.len() && name is Some ==> got == Ok::<(Seq<char>, Seq<char>), ExitView>(
                (name->0, parent),
            )
            &&& i == a.len() && name is None ==> (got matches Err(e) && e.code == 2)
            &&& i < a.len() && a[i] == "--python"@ ==> got == read_new(a, i + 1, name, parent)
            &&& i + 1 < a.len() && (a[i] == "-o"@ || a[i] == "--output"@) ==> got == read_new(
                a,
                i + 2,
                name,
                a[i + 1],
            )
            &&& i < a.len() && !begins(a[i], "-"@) && name is None ==> got == read_new(
                a,
                i + 1,
                Some(a[i]),
                parent,
            )
            &&& i < a.len() && !begins(a[i], "-"@) && name is Some ==> (got matches Err(e) && e.code == 2)
        }),
{
    lemma_option_words();
    if i < a.len() && !begins(a[i], "-"@) {
        assert(!asks_help(a[i]));
        lemma_two_dashes(a[i]);
    }
}

/// What starts with two dashes starts with one.
proof fn lemma_two_dashes(w: Seq<char>)
    ensures
        begins(w, "--"@) ==> begins(w, "-"@),
{
    reveal_strlit("-");
    reveal_strlit("--");
    if begins(w, "--"@) {
        assert(w.subrange(0, 2)[0] == '-');
        assert(w.subrange(0, 1) =~= "-"@);
    }
}

/// Law: on a line for a diagram the last of `--dot` and `--mermaid` counts, and
/// the one word that is no option is the machine file.
pub proof fn law_viz_line_names_the_machine(
    a: Seq<Seq<char>>,
    i: int,
    machine: Option<Seq<char>>,
    dot: bool,
)
    requires
        0 <= i <= a.len(),
    ensures
        ({
            let got = read_viz(a, i, machine, dot);
            &&& i == a.len() && machine is Some ==> got == Ok::<(Seq<char>, bool), ExitView>(
                (machine->0, dot),
            )
            &&& i == a.len() && machine is None ==> (got matches Err(e) && e.code == 2)
            &&& i < a.len() && a[i] == "--dot"@ ==> got == read_viz(a, i + 1, machine, true)
            &&& i < a.len() && a[i] == "--mermaid"@ ==> got == read_viz(a, i + 1, machine, false)
            &&& i < a.len() && !begins(a[i], "-"@) && machine is None ==> got == read_viz(
                a,
                i + 1,
                Some(a[i]),
                dot,
            )
            &&& i < a.len() && !begins(a[i], "-"@) && machine is Some ==> (got matches Err(e) && e.code == 2)
        }),
{
    lemma_option_words();
    if i < a.len() && !begins(a[i], "-"@) {
        assert(!asks_help(a[i]));
    }
}

/// Law: the words that are resolved are those that do not start with a dash, in
/// that order.
pub proof fn law_plain_words_keep_their_order(a: Seq<Seq<char>>, b: Seq<Seq<char>>)
    ensures
        plain_words(a + b) == plain_words(a) + plain_words(b),
        forall|w: Seq<char>| !begins(w, "-"@) ==> #[trigger] plain_words(seq![w]) == seq![w],
        forall|w: Seq<char>|
            begins(w, "-"@) ==> #[trigger] plain_words(seq![w]) == Seq::<Seq<char>>::empty(),
    decreases b.len(),
{
    reveal_with_fuel(plain_words, 2);
    assert forall|w: Seq<char>| !begins(w, "-"@) implies #[trigger] plain_words(seq![w])
        == seq![w] by {
        assert(seq![w].drop_last() =~= Seq::<Seq<char>>::empty());
        assert(plain_words(seq![w]) =~= seq![w]);
    }
    assert forall|w: Seq<char>| begins(w, "-"@) implies #[trigger] plain_words(seq![w]) == Seq::<
        Seq<char>,
    >::empty() by {
        assert(seq![w].drop_last() =~= Seq::<Seq<char>>::empty());
    }
    if b.len() == 0 {
        assert(a + b =~= a);
        assert(plain_words(a) + plain_words(b) =~= plain_words(a));
    } else {
        law_plain_words_keep_their_order(a, b.drop_last());
        assert((a + b).drop_last() =~= a + b.drop_last());
        assert((a + b).last() == b.last());
        assert(plain_words(a + b) =~= plain_words(a) + plain_words(b));
    }
}

/// Law: without options nothing is set: no local binaries, no trace, no folder,
/// nothing is overwritten, and no help is asked for.
pub proof fn law_options_are_off_unless_given(a: Seq<Seq<char>>)
    ensures
        ({
            let (o, end) = read_cap(Seq::empty(), 0, cap_default(), false);
            &&& end is None
            &&& o.tokens.len() == 0 && o.pairs.len() == 0 && o.dev_bins.len() == 0
            &&& o.output is None && o.trace is None && o.to is None
            &&& !o.force && !o.help
        }),
        a.len() > 0 && !begins(a[0], "-"@) ==> ({
            let (o, place) = read_run(a, 0, run_default(), false);
            &&& place == Ok::<int, ExitView>(0)
            &&& o.dev_bins.len() == 0
            &&& o.output is None && o.trace is None
            &&& !o.force
        }),
{
    reveal_strlit("-");
    reveal_strlit("--help");
    reveal_strlit("-h");
    reveal_strlit("--trace");
    reveal_strlit("-o");
    reveal_strlit("--output");
    reveal_strlit("--force");
    reveal_strlit("--dev-bins");
    assert("--help"@.subrange(0, 1) =~= "-"@);
    assert("-h"@.subrange(0, 1) =~= "-"@);
    assert("--trace"@.subrange(0, 1) =~= "-"@);
    assert("-o"@.subrange(0, 1) =~= "-"@);
    assert("--output"@.subrange(0, 1) =~= "-"@);
    assert("--force"@.subrange(0, 1) =~= "-"@);
    assert("--dev-bins"@.subrange(0, 1) =~= "-"@);
}

/// Law: an option that takes a value is refused where the line ends behind it,
/// and sets nothing.
pub proof fn law_missing_value_is_refused(a: Seq<Seq<char>>, i: int, run: RunView, cap: CapView)
    requires
        0 <= i,
        i + 1 == a.len(),
        a[i] == "--trace"@ || a[i] == "--output"@ || a[i] == "-o"@,
    ensures
        read_run(a, i, run, false).0 == run,
        read_run(a, i, run, false).1 matches Err(e) && !e.usage && e.code == 1,
        read_cap(a, i, cap, false).0 == cap,
        read_cap(a, i, cap, false).1 matches Some(e) && !e.usage && e.code == 2,
{
    reveal_strlit("--trace");
    reveal_strlit("--output");
    reveal_strlit("-o");
    reveal_strlit("--help");
    reveal_strlit("-h");
    reveal_strlit("--force");
    reveal_strlit("--arg");
    assert("--trace"@.len() != "--help"@.len());
    assert("--trace"@.len() != "-h"@.len());
    assert("--trace"@.len() != "-o"@.len());
    assert("--trace"@.len() != "--output"@.len());
    assert("--trace"@.len() != "--arg"@.len());
    assert("--trace"@[2] != "--force"@[2]);
    assert("--output"@.len() != "--help"@.len());
    assert("--output"@.len() != "-h"@.len());
    assert("-o"@[1] != "-h"@[1]);
    assert("-o"@.len() != "--help"@.len());
}

} // verus!
