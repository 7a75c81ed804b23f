//! What a command line asks for.

use crate::text::{
    add_text, begins, begins_with, ends, ends_with, opt_text, owned, replace_all, replaced,
    same_text, texts,
};
use vstd::prelude::*;

verus! {

broadcast use vstd::string::group_string_axioms;

/// How a command ends: the message to show, if it is not empty, whether the
/// usage is shown after it, and the code of the process.
#[derive(Debug, PartialEq, Eq)]
pub struct Exit {
    pub message: String,
    pub usage: bool,
    pub code: i32,
}

/// How a command ends.
#[verifier::ext_equal]
pub struct ExitView {
    pub message: Seq<char>,
    pub usage: bool,
    pub code: i32,
}

impl View for Exit {
    type V = ExitView;

    open spec fn view(&self) -> ExitView {
        ExitView { message: self.message@, usage: self.usage, code: self.code }
    }
}

/// The end of a command that was asked how it is used.
pub open spec fn help() -> ExitView {
    ExitView { message: ""@, usage: true, code: 0 }
}

/// The end of a command that was used wrongly.
pub open spec fn refusal(message: Seq<char>, code: i32) -> ExitView {
    ExitView { message, usage: false, code }
}

/// The end of a command that was asked how it is used.
pub fn exit_help() -> (r: Exit)
    ensures
        r@ == help(),
{
    Exit { message: owned(""), usage: true, code: 0 }
}

/// The end of a command that was used wrongly.
pub fn exit_with(message: String, code: i32) -> (r: Exit)
    ensures
        r@ == refusal(message@, code),
{
    Exit { message, usage: false, code }
}

/// The text of three pieces.
pub fn three(a: &str, b: &str, c: &str) -> (r: String)
    ensures
        r@ == a@ + b@ + c@,
{
    let mut out = owned(a);
    add_text(&mut out, b);
    add_text(&mut out, c);
    out
}

/// What a command line asks for.
#[derive(Debug, PartialEq, Eq)]
pub enum Command {
    HashCartridgeDir,
    Run,
    Plan,
    DagViz,
    Find,
    Resolve,
    Cache,
    Install,
    New,
    DevInstall,
    Help,
    Version,
    /// The line names a cap.
    Cap,
    /// The line cannot be read.
    Bad(Exit),
}

/// The command that a word names.
pub open spec fn command_word(word: Seq<char>) -> Option<Command> {
    if word == "hash-cartridge-dir"@ {
        Some(Command::HashCartridgeDir)
    } else if word == "run"@ {
        Some(Command::Run)
    } else if word == "plan"@ {
        Some(Command::Plan)
    } else if word == "dag-viz"@ {
        Some(Command::DagViz)
    } else if word == "find"@ {
        Some(Command::Find)
    } else if word == "resolve"@ {
        Some(Command::Resolve)
    } else if word == "cache"@ {
        Some(Command::Cache)
    } else if word == "install"@ {
        Some(Command::Install)
    } else if word == "new"@ {
        Some(Command::New)
    } else if word == "dev-install"@ {
        Some(Command::DevInstall)
    } else if word == "--help"@ || word == "-h"@ || word == "help"@ {
        Some(Command::Help)
    } else if word == "--version"@ || word == "-V"@ || word == "version"@ {
        Some(Command::Version)
    } else {
        None
    }
}

/// The command that a word names.
fn read_command_word(word: &str) -> (r: Option<Command>)
    ensures
        r == command_word(word@),
{
    if same_text(word, "hash-cartridge-dir") {
        Some(Command::HashCartridgeDir)
    } else if same_text(word, "run") {
        Some(Command::Run)
    } else if same_text(word, "plan") {
        Some(Command::Plan)
    } else if same_text(word, "dag-viz") {
        Some(Command::DagViz)
    } else if same_text(word, "find") {
        Some(Command::Find)
    } else if same_text(word, "resolve") {
        Some(Command::Resolve)
    } else if same_text(word, "cache") {
        Some(Command::Cache)
    } else if same_text(word, "install") {
        Some(Command::Install)
    } else if same_text(word, "new") {
        Some(Command::New)
    } else if same_text(word, "dev-install") {
        Some(Command::DevInstall)
    } else if same_text(word, "--help") || same_text(word, "-h") || same_text(word, "help") {
        Some(Command::Help)
    } else if same_text(word, "--version") || same_text(word, "-V") || same_text(word, "version") {
        Some(Command::Version)
    } else {
        None
    }
}

/// What a line asks for. The first word is the program. A word that names no
/// command is a cap, unless it names a machine file or looks like an option:
/// both are refused.
pub open spec fn asked_for(a: Seq<Seq<char>>, r: Command) -> bool {
    if a.len() < 2 {
        &&& r matches Command::Bad(e)
        &&& e@ == (ExitView { message: ""@, usage: true, code: 1 })
    } else {
        match command_word(a[1]) {
            Some(c) => r == c,
            None => if ends(a[1], ".machine"@) {
                &&& r matches Command::Bad(e)
                &&& e@ == refusal(
                    "'"@ + a[1] + "' is a machine file — run it with: "@ + a[0] + " run "@ + a[1]
                        + " [inputs...]"@,
                    2,
                )
            } else if begins(a[1], "-"@) {
                &&& r matches Command::Bad(e)
                &&& e@ == (ExitView {
                    message: "Unknown option '"@ + a[1] + "'."@,
                    usage: true,
                    code: 2,
                })
            } else {
                r == Command::Cap
            },
        }
    }
}

/// What a line asks for.
pub fn read_command(args: &Vec<String>) -> (r: Command)
    ensures
        asked_for(texts(args@), r),
{
    if args.len() < 2 {
        return Command::Bad(Exit { message: owned(""), usage: true, code: 1 });
    }
    let word: &str = &args[1];
    match read_command_word(word) {
        Some(c) => {
            return c;
        },
        None => {},
    }
    if ends_with(word, ".machine") {
        let mut m = three("'", word, "' is a machine file — run it with: ");
        add_text(&mut m, &args[0]);
        add_text(&mut m, " run ");
        add_text(&mut m, word);
        add_text(&mut m, " [inputs...]");
        return Command::Bad(exit_with(m, 2));
    }
    if begins_with(word, "-") {
        return Command::Bad(
            Exit { message: three("Unknown option '", word, "'."), usage: true, code: 2 },
        );
    }
    Command::Cap
}

/// The word that a command acts on: the third of the line. Where it is missing
/// the line is answered with how the command is used.
pub fn read_subject(args: &Vec<String>, form: &str) -> (r: Result<usize, Exit>)
    requires
        args@.len() > 0,
    ensures
        match r {
            Ok(i) => i == 2 && args@.len() > 2,
            Err(e) => args@.len() <= 2 && e@ == refusal(
                "Usage: "@ + args@[0]@ + " "@ + form@,
                2,
            ),
        },
{
    if args.len() > 2 {
        return Ok(2);
    }
    let mut m = three("Usage: ", &args[0], " ");
    add_text(&mut m, form);
    Err(exit_with(m, 2))
}

/// What the cache command does.
#[derive(Debug, Clone, Copy, PartialEq, Eq, Structural)]
pub enum CacheAction {
    Clear,
    Refresh,
}

impl CacheAction {
    /// What was done.
    pub open spec fn verb(self) -> Seq<char> {
        match self {
            CacheAction::Clear => "cleared"@,
            CacheAction::Refresh => "refreshed"@,
        }
    }

    /// What was done.
    pub fn done(self) -> (r: &'static str)
        ensures
            r@ == self.verb(),
    {
        match self {
            CacheAction::Clear => "cleared",
            CacheAction::Refresh => "refreshed",
        }
    }
}

/// What a cache line asks for; to refresh, if it does not say.
pub fn read_cache(args: &Vec<String>) -> (r: Result<CacheAction, Exit>)
    requires
        args@.len() > 0,
    ensures
        ({
            let sub = if args@.len() > 2 {
                args@[2]@
            } else {
                "refresh"@
            };
            let clear = sub == "clear"@ || sub == "purge"@ || sub == "invalidate"@;
            let refresh = sub == "refresh"@ || sub == "renew"@;
            match r {
                Ok(CacheAction::Clear) => clear,
                Ok(CacheAction::Refresh) => !clear && refresh,
                Err(e) => !clear && !refresh && e@ == refusal(
                    "Unknown cache subcommand '"@ + sub + "'. Usage: "@ + args@[0]@
                        + " cache [clear|refresh]"@,
                    2,
                ),
            }
        }),
{
    let sub: &str = if args.len() > 2 {
        &args[2]
    } else {
        "refresh"
    };
    if same_text(sub, "clear") || same_text(sub, "purge") || same_text(sub, "invalidate") {
        return Ok(CacheAction::Clear);
    }
    if same_text(sub, "refresh") || same_text(sub, "renew") {
        return Ok(CacheAction::Refresh);
    }
    let mut m = three("Unknown cache subcommand '", sub, "'. Usage: ");
    add_text(&mut m, &args[0]);
    add_text(&mut m, " cache [clear|refresh]");
    Err(exit_with(m, 2))
}

/// The code of a process that met this many errors.
pub fn exit_code(errors: usize) -> (r: i32)
    ensures
        r == (if errors > 0 {
            1i32
        } else {
            0i32
        }),
{
    if errors > 0 {
        1
    } else {
        0
    }
}

/// What an install is asked for: a name that the registry of cartridges knows,
/// and that is no URN, is taken as it is; any other is a cap to resolve.
pub fn install_resolves_cap(token: &str, known_cartridge: bool) -> (r: bool)
    ensures
        r == (crate::text::occurs(token@, ":"@) || !known_cartridge),
{
    crate::text::contains_text(token, ":") || !known_cartridge
}

/// What can be said of a registry cartridge's build for this platform.
pub fn binary_state(has_build: bool, has_binary: bool) -> (r: &'static str)
    ensures
        r@ == (if !has_build {
            "no build for this platform"@
        } else if has_binary {
            "signed binary available"@
        } else {
            "NO signed binary (installer-only publish — not runnable via capdag)"@
        }),
{
    if !has_build {
        "no build for this platform"
    } else if has_binary {
        "signed binary available"
    } else {
        "NO signed binary (installer-only publish — not runnable via capdag)"
    }
}

/// The registry and the schemas that a process is bound to by its build: the
/// registry where the environment names none, and the schemas only along with
/// it, where the environment names none either.
pub fn build_binding(
    env_registry: bool,
    env_schema: bool,
    baked_registry: Option<&str>,
    baked_schema: Option<&str>,
) -> (r: (Option<String>, Option<String>))
    ensures
        opt_text(r.0) == (match baked_registry {
            Some(url) if !env_registry => Some(url@),
            _ => None,
        }),
        opt_text(r.1) == (match baked_schema {
            Some(url) if r.0 is Some && !env_schema => Some(url@),
            _ => None,
        }),
{
    match baked_registry {
        Some(url) if !env_registry => {
            let schema = match baked_schema {
                Some(s) if !env_schema => Some(owned(s)),
                _ => None,
            };
            (Some(owned(url)), schema)
        },
        _ => (None, None),
    }
}

/// How the program is used, with a placeholder for its name.
pub const USAGE_TEMPLATE: &'static str = "Usage:
{p} <cap-alias-or-urn> [cap args] [inputs...] [options]   Run one cap
{p} run <machine-file> [inputs...] [options]              Run a .machine file
{p} plan <files...> [--to <t>]... [plan options]          Plan machines for a file set (multi-source aware)
{p} dag-viz <machine-file> [--mermaid|--dot]              Render the execution plan as a diagram
{p} find <cap-alias-or-urn>                               Show the providing cartridge(s)
{p} resolve [--no-cache] <cap-alias-or-urn>...            Print cap definition JSON (array for >1)
{p} cache [clear|refresh]                                 Invalidate/renew the local fabric cache
{p} install <cap-alias-or-urn-or-cartridge-id>            Download + verify without running
{p} new <name> [--python] [-o <dir>]                      Scaffold a new cartridge project
{p} dev-install <project-dir>                             Install/update a dev cartridge under the dev slug

Single-cap mode drives the cap's OWN declared interface — exactly like
invoking the cartridge directly, except the cap runs inside a full bifaci
host with the bundled cartridges (data/fetch/model cartridges) registered,
so peer calls (e.g. model downloads) work:
- piped stdin, or input file paths, feed the cap's stdin arg
- the cap's declared --flags and positional args are accepted natively
- --arg <flag-or-media-urn>=<value> addresses any arg explicitly
(value form @<path> reads the file's bytes)

Output (pipe discipline): a single scalar result streams RAW to stdout;
sequences and fan-outs write files (named {input}.{node}[.{i}].{ext})
and list their paths on stdout. Logs/progress go to stderr.

Options:
-o, --output <dir>       Write result files into <dir> (default: cwd)
--force                  Overwrite existing output files
--arg <name>=<value>     Explicit cap argument (repeatable; single-cap mode)
--dev-bins <binary> ...  Use local cartridge binaries
--trace <file.trace>     Write a per-segment bifaci protocol trace (JSONL)
--help                   Show this help; after a cap name, that cap's interface
(input / required options / options)

Plan options (capdag plan — the unified configurable planner):
--to <ext|media-urn>     Target (repeatable ⇒ multi-target). Omit to DISCOVER targets
--converge <auto|combine|independent>
--where <auto|earliest|latest|source|target|depth=N>   Convergence location
--mechanism <any|generalize|collect|merge>
--rank <intent|shortest|cost>
--depth <N> / --max-paths <N> / --max <N>              Search bounds
--pick <rank>            Choose a candidate (default 0, the magic pick)
--save <file.machine>    Write the chosen candidate's notation
--run                    Execute the chosen candidate on the input files

Utility subcommand: hash-cartridge-dir.

Examples:
{p} pdf2summary report.pdf
cat report.pdf | {p} pdf2summary > summary.txt
{p} disbind-pdf --index-range 1-5 report.pdf -o pages/
{p} run pipeline.machine /tmp/pdfs/";

/// How the program is used.
pub fn usage(program: &str) -> (r: String)
    ensures
        r@ == replaced(USAGE_TEMPLATE@, "{p}"@, program@),
{
    replace_all(USAGE_TEMPLATE, "{p}", program)
}

/// A record of a machine's log.
#[derive(Debug)]
pub struct LogRecord {
    pub level: String,
    pub body_index: Option<u64>,
    pub step_token_id: Option<String>,
    pub arg_urn: Option<String>,
    /// What goes with the record, as text.
    pub meta: Option<String>,
    pub cap_urn: Option<String>,
    pub message: String,
}

/// `head`, the value and `tail`, where there is a value.
pub open spec fn framed(head: Seq<char>, value: Option<Seq<char>>, tail: Seq<char>) -> Seq<char> {
    match value {
        Some(v) => head + v + tail,
        None => ""@,
    }
}

/// `head`, the value and `tail`, where there is a value.
fn frame(head: &str, value: &Option<String>, tail: &str) -> (r: String)
    ensures
        r@ == framed(head@, opt_text(*value), tail@),
{
    match value {
        Some(v) => three(head, v, tail),
        None => owned(""),
    }
}

/// The value, or `machine` where there is none.
pub open spec fn or_machine(value: Option<Seq<char>>) -> Seq<char> {
    match value {
        Some(v) => v,
        None => "machine"@,
    }
}

/// The number as text, if there is one.
pub open spec fn shown_index(index: Option<u64>) -> Option<Seq<char>> {
    match index {
        Some(i) => Some(crate::text::decimal(i as nat)),
        None => None,
    }
}

/// A record as a line.
pub open spec fn log_line_of(record: LogRecord) -> Seq<char> {
    "  [log:"@ + record.level@ + framed(" body="@, shown_index(record.body_index), ""@)
        + " step='"@ + or_machine(opt_text(record.step_token_id)) + "'"@ + framed(
        " arg='"@,
        opt_text(record.arg_urn),
        "'"@,
    ) + "]"@ + framed(" [meta "@, opt_text(record.meta), "]"@) + " "@ + or_machine(
        opt_text(record.cap_urn),
    ) + " "@ + record.message@
}

/// A record as a line.
pub fn log_line(record: &LogRecord) -> (r: String)
    ensures
        r@ == log_line_of(*record),
{
    let mut out = owned("  [log:");
    add_text(&mut out, &record.level);
    let index = match record.body_index {
        Some(i) => Some(crate::text::decimal_text(i)),
        None => None,
    };
    add_text(&mut out, &frame(" body=", &index, ""));
    add_text(&mut out, " step='");
    match &record.step_token_id {
        Some(t) => add_text(&mut out, t),
        None => add_text(&mut out, "machine"),
    }
    add_text(&mut out, "'");
    add_text(&mut out, &frame(" arg='", &record.arg_urn, "'"));
    add_text(&mut out, "]");
    add_text(&mut out, &frame(" [meta ", &record.meta, "]"));
    add_text(&mut out, " ");
    match &record.cap_urn {
        Some(t) => add_text(&mut out, t),
        None => add_text(&mut out, "machine"),
    }
    add_text(&mut out, " ");
    add_text(&mut out, &record.message);
    out
}

/// Law: each command is asked for by its own word, whatever follows it; any other
/// word that is neither an option nor a machine file is a cap.
pub proof fn law_command_is_asked_for_by_its_word(a: Seq<Seq<char>>, r: Command)
    requires
        a.len() >= 2,
        asked_for(a, r),
    ensures
        a[1] == "hash-cartridge-dir"@ ==> r == Command::HashCartridgeDir,
        a[1] == "run"@ ==> r == Command::Run,
        a[1] == "plan"@ ==> r == Command::Plan,
        a[1] == "dag-viz"@ ==> r == Command::DagViz,
        a[1] == "find"@ ==> r == Command::Find,
        a[1] == "resolve"@ ==> r == Command::Resolve,
        a[1] == "cache"@ ==> r == Command::Cache,
        a[1] == "install"@ ==> r == Command::Install,
        a[1] == "new"@ ==> r == Command::New,
        a[1] == "dev-install"@ ==> r == Command::DevInstall,
        a[1] == "--help"@ ==> r == Command::Help,
        a[1] == "-h"@ ==> r == Command::Help,
        a[1] == "help"@ ==> r == Command::Help,
        a[1] == "--version"@ ==> r == Command::Version,
        a[1] == "-V"@ ==> r == Command::Version,
        a[1] == "version"@ ==> r == Command::Version,
        r == Command::Run ==> a[1] == "run"@,
        r == Command::Plan ==> a[1] == "plan"@,
        r == Command::Install ==> a[1] == "install"@,
        r == Command::DevInstall ==> a[1] == "dev-install"@,
        r == Command::Cache ==> a[1] == "cache"@,
        r == Command::Cap ==> !begins(a[1], "-"@) && !ends(a[1], ".machine"@),
{
    reveal_strlit("hash-cartridge-dir");
    reveal_strlit("run");
    reveal_strlit("plan");
    reveal_strlit("dag-viz");
    reveal_strlit("find");
    reveal_strlit("resolve");
    reveal_strlit("cache");
    reveal_strlit("install");
    reveal_strlit("new");
    reveal_strlit("dev-install");
    reveal_strlit("--help");
    reveal_strlit("-h");
    reveal_strlit("help");
    reveal_strlit("--version");
    reveal_strlit("-V");
    reveal_strlit("version");
    assert("hash-cartridge-dir"@.len() != "run"@.len());
    assert("hash-cartridge-dir"@.len() != "plan"@.len());
    assert("hash-cartridge-dir"@.len() != "dag-viz"@.len());
    assert("hash-cartridge-dir"@.len() != "find"@.len());
    assert("hash-cartridge-dir"@.len() != "resolve"@.len());
    assert("hash-cartridge-dir"@.len() != "cache"@.len());
    assert("hash-cartridge-dir"@.len() != "install"@.len());
    assert("hash-cartridge-dir"@.len() != "new"@.len());
    assert("hash-cartridge-dir"@.len() != "dev-install"@.len());
    assert("hash-cartridge-dir"@.len() != "--help"@.len());
    assert("hash-cartridge-dir"@.len() != "-h"@.len());
    assert("hash-cartridge-dir"@.len() != "help"@.len());
    assert("hash-cartridge-dir"@.len() != "--version"@.len());
    assert("hash-cartridge-dir"@.len() != "-V"@.len());
    assert("hash-cartridge-dir"@.len() != "version"@.len());
    assert("run"@.len() != "plan"@.len());
    assert("run"@.len() != "dag-viz"@.len());
    assert("run"@.len() != "find"@.len());
    assert("run"@.len() != "resolve"@.len());
    assert("run"@.len() != "cache"@.len());
    assert("run"@.len() != "install"@.len());
    assert("run"@.len() != "dev-install"@.len());
    assert("run"@.len() != "--help"@.len());
    assert("run"@.len() != "-h"@.len());
    assert("run"@.len() != "help"@.len());
    assert("run"@.len() != "--version"@.len());
    assert("run"@.len() != "-V"@.len());
    assert("run"@.len() != "version"@.len());
    assert("plan"@.len() != "dag-viz"@.len());
    assert("plan"@.len() != "resolve"@.len());
    assert("plan"@.len() != "cache"@.len());
    assert("plan"@.len() != "install"@.len());
    assert("plan"@.len() != "new"@.len());
    assert("plan"@.len() != "dev-install"@.len());
    assert("plan"@.len() != "--help"@.len());
    assert("plan"@.len() != "-h"@.len());
    assert("plan"@.len() != "--version"@.len());
    assert("plan"@.len() != "-V"@.len());
    assert("plan"@.len() != "version"@.len());
    assert("dag-viz"@.len() != "find"@.len());
    assert("dag-viz"@.len() != "cache"@.len());
    assert("dag-viz"@.len() != "new"@.len());
    assert("dag-viz"@.len() != "dev-install"@.len());
    assert("dag-viz"@.len() != "--help"@.len());
    assert("dag-viz"@.len() != "-h"@.len());
    assert("dag-viz"@.len() != "help"@.len());
    assert("dag-viz"@.len() != "--version"@.len());
    assert("dag-viz"@.len() != "-V"@.len());
    assert("find"@.len() != "resolve"@.len());
    assert("find"@.len() != "cache"@.len());
    assert("find"@.len() != "install"@.len());
    assert("find"@.len() != "new"@.len());
    assert("find"@.len() != "dev-install"@.len());
    assert("find"@.len() != "--help"@.len());
    assert("find"@.len() != "-h"@.len());
    assert("find"@.len() != "--version"@.len());
    assert("find"@.len() != "-V"@.len());
    assert("find"@.len() != "version"@.len());
    assert("resolve"@.len() != "cache"@.len());
    assert("resolve"@.len() != "new"@.len());
    assert("resolve"@.len() != "dev-install"@.len());
    assert("resolve"@.len() != "--help"@.len());
    assert("resolve"@.len() != "-h"@.len());
    assert("resolve"@.len() != "help"@.len());
    assert("resolve"@.len() != "--version"@.len());
    assert("resolve"@.len() != "-V"@.len());
    assert("cache"@.len() != "install"@.len());
    assert("cache"@.len() != "new"@.len());
    assert("cache"@.len() != "dev-install"@.len());
    assert("cache"@.len() != "--help"@.len());
    assert("cache"@.len() != "-h"@.len());
    assert("cache"@.len() != "help"@.len());
    assert("cache"@.len() != "--version"@.len());
    assert("cache"@.len() != "-V"@.len());
    assert("cache"@.len() != "version"@.len());
    assert("install"@.len() != "new"@.len());
    assert("install"@.len() != "dev-install"@.len());
    assert("install"@.len() != "--help"@.len());
    assert("install"@.len() != "-h"@.len());
    assert("install"@.len() != "help"@.len());
    assert("install"@.len() != "--version"@.len());
    assert("install"@.len() != "-V"@.len());
    assert("new"@.len() != "dev-install"@.len());
    assert("new"@.len() != "--help"@.len());
    assert("new"@.len() != "-h"@.len());
    assert("new"@.len() != "help"@.len());
    assert("new"@.len() != "--version"@.len());
    assert("new"@.len() != "-V"@.len());
    assert("new"@.len() != "version"@.len());
    assert("dev-install"@.len() != "--help"@.len());
    assert("dev-install"@.len() != "-h"@.len());
    assert("dev-install"@.len() != "help"@.len());
    assert("dev-install"@.len() != "--version"@.len());
    assert("dev-install"@.len() != "-V"@.len());
    assert("dev-install"@.len() != "version"@.len());
    assert("--help"@.len() != "-h"@.len());
    assert("--help"@.len() != "help"@.len());
    assert("--help"@.len() != "--version"@.len());
    assert("--help"@.len() != "-V"@.len());
    assert("--help"@.len() != "version"@.len());
    assert("-h"@.len() != "help"@.len());
    assert("-h"@.len() != "--version"@.len());
    assert("-h"@.len() != "version"@.len());
    assert("help"@.len() != "--version"@.len());
    assert("help"@.len() != "-V"@.len());
    assert("help"@.len() != "version"@.len());
    assert("--version"@.len() != "-V"@.len());
    assert("--version"@.len() != "version"@.len());
    assert("-V"@.len() != "version"@.len());
    assert("run"@[0] != "new"@[0]);
    assert("plan"@[0] != "find"@[0]);
    assert("plan"@[0] != "help"@[0]);
    assert("dag-viz"@[0] != "resolve"@[0]);
    assert("dag-viz"@[0] != "install"@[0]);
    assert("dag-viz"@[0] != "version"@[0]);
    assert("find"@[0] != "help"@[0]);
    assert("resolve"@[0] != "install"@[0]);
    assert("resolve"@[0] != "version"@[0]);
    assert("install"@[0] != "version"@[0]);
    assert("-h"@[1] != "-V"@[1]);
}

} // verus!
