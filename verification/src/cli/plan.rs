//! The options of the planner: what a line says, and what its words mean.

use crate::cli::command::{exit_help, exit_with, help, refusal, three, Exit, ExitView};
use crate::cli::options::{
    asks_help, end_view, ends_bins, is_output_flag, word_ends_bins, BinsEnd,
};
use crate::text::{
    add_text, begins, begins_with, chars_of, contains_text, decimal, decimal_text,
    law_decimal_reads_back, number, occurs, occurs_at,
    opt_text, owned, parse_number, same_text, text_between, texts,
};
use crate::urn::{
    is_bare, is_plain_char, law_canonical_text_reads_back, lemma_prefixes, media_parse, media_text,
    write_tag, MediaUrn, TagView,
};
use vstd::prelude::*;

verus! {

broadcast use vstd::string::group_string_axioms;

// ---------------------------------------------------------------------------
// Numbers and targets
// ---------------------------------------------------------------------------

/// The number that a word writes.
pub open spec fn count_of(word: Seq<char>) -> Option<nat> {
    number(word, usize::MAX as nat)
}

/// The message for a word that writes no number.
pub open spec fn count_words(flag: Seq<char>, word: Seq<char>) -> Seq<char> {
    flag + " requires a non-negative integer, got '"@ + word + "'"@
}

/// The number that a word writes, for the option `flag`.
pub fn parse_count(word: &str, flag: &str) -> (r: Result<usize, Exit>)
    ensures
        match r {
            Ok(n) => count_of(word@) == Some(n as nat),
            Err(e) => count_of(word@) is None && e@ == refusal(count_words(flag@, word@), 2),
        },
{
    match parse_number(word, usize::MAX as u64) {
        Some(n) => Ok(n as usize),
        None => {
            let mut m = three(flag, " requires a non-negative integer, got '", word);
            add_text(&mut m, "'");
            Err(exit_with(m, 2))
        },
    }
}

/// The media URN that a target stands for: itself where it holds a colon, else
/// the files with that extension.
pub open spec fn target_text(target: Seq<char>) -> Seq<char> {
    if occurs(target, ":"@) {
        target
    } else {
        "media:ext="@ + target
    }
}

/// The media type that a target stands for.
pub fn parse_target_media(target: &str) -> (r: Result<MediaUrn, Exit>)
    ensures
        match r {
            Ok(m) => media_parse(target_text(target@)) == Some(m@),
            Err(e) => {
                &&& media_parse(target_text(target@)) is None
                &&& e.code == 2 && !e.usage
                &&& e.message@ == "Invalid --to target '"@ + target@ + "': "@ + "malformed URN"@
            },
        },
{
    let text = if contains_text(target, ":") {
        owned(target)
    } else {
        let mut t = owned("media:ext=");
        add_text(&mut t, target);
        t
    };
    match MediaUrn::from_string(&text) {
        Ok(m) => Ok(m),
        Err(e) => {
            let mut m = three("Invalid --to target '", target, "': ");
            add_text(&mut m, &e.to_string());
            Err(exit_with(m, 2))
        },
    }
}

// ---------------------------------------------------------------------------
// The words of a line
// ---------------------------------------------------------------------------

/// How far a plan is searched for.
#[derive(Debug, Clone, Copy, PartialEq, Eq, Structural)]
pub struct SearchBounds {
    pub depth: usize,
    pub max_paths: usize,
    pub max: usize,
}

/// The options of the planner.
#[derive(Debug)]
pub struct PlanOptions {
    pub to: Vec<String>,
    pub converge: String,
    pub location: String,
    pub mechanism: String,
    pub rank: String,
    pub depth: usize,
    pub max_paths: usize,
    pub max: usize,
    pub pick: usize,
    pub save: Option<String>,
    pub run: bool,
    pub output: Option<String>,
    pub force: bool,
    pub dev_bins: Vec<String>,
    pub trace: Option<String>,
    pub files: Vec<String>,
    /// Whether the line says anything of how paths come together.
    pub configured: bool,
}

/// The options of the planner.
#[verifier::ext_equal]
pub struct PlanView {
    pub to: Seq<Seq<char>>,
    pub converge: Seq<char>,
    pub location: Seq<char>,
    pub mechanism: Seq<char>,
    pub rank: Seq<char>,
    pub depth: nat,
    pub max_paths: nat,
    pub max: nat,
    pub pick: nat,
    pub save: Option<Seq<char>>,
    pub run: bool,
    pub output: Option<Seq<char>>,
    pub force: bool,
    pub dev_bins: Seq<Seq<char>>,
    pub trace: Option<Seq<char>>,
    pub files: Seq<Seq<char>>,
    pub configured: bool,
}

impl View for PlanOptions {
    type V = PlanView;

    open spec fn view(&self) -> PlanView {
        PlanView {
            to: texts(self.to@),
            converge: self.converge@,
            location: self.location@,
            mechanism: self.mechanism@,
            rank: self.rank@,
            depth: self.depth as nat,
            max_paths: self.max_paths as nat,
            max: self.max as nat,
            pick: self.pick as nat,
            save: opt_text(self.save),
            run: self.run,
            output: opt_text(self.output),
            force: self.force,
            dev_bins: texts(self.dev_bins@),
            trace: opt_text(self.trace),
            files: texts(self.files@),
            configured: self.configured,
        }
    }
}

/// What holds where the line says nothing.
pub open spec fn plan_default(bounds: SearchBounds) -> PlanView {
    PlanView {
        to: Seq::empty(),
        converge: "auto"@,
        location: "auto"@,
        mechanism: "any"@,
        rank: "intent"@,
        depth: bounds.depth as nat,
        max_paths: bounds.max_paths as nat,
        max: bounds.max as nat,
        pick: 0,
        save: None,
        run: false,
        output: None,
        force: false,
        dev_bins: Seq::empty(),
        trace: None,
        files: Seq::empty(),
        configured: false,
    }
}

/// The options that take a value, by their name in messages.
#[derive(Debug, Clone, Copy, PartialEq, Eq, Structural)]
pub enum Valued {
    To,
    Converge,
    Where,
    Mechanism,
    Rank,
    Depth,
    MaxPaths,
    Max,
    Pick,
    Save,
    Output,
    Trace,
}

impl Valued {
    /// The name of the option in messages.
    pub open spec fn flag(self) -> Seq<char> {
        match self {
            Valued::To => "--to"@,
            Valued::Converge => "--converge"@,
            Valued::Where => "--where"@,
            Valued::Mechanism => "--mechanism"@,
            Valued::Rank => "--rank"@,
            Valued::Depth => "--depth"@,
            Valued::MaxPaths => "--max-paths"@,
            Valued::Max => "--max"@,
            Valued::Pick => "--pick"@,
            Valued::Save => "--save"@,
            Valued::Output => "--output"@,
            Valued::Trace => "--trace"@,
        }
    }

    /// The name of the option in messages.
    pub fn name(self) -> (r: &'static str)
        ensures
            r@ == self.flag(),
    {
        match self {
            Valued::To => "--to",
            Valued::Converge => "--converge",
            Valued::Where => "--where",
            Valued::Mechanism => "--mechanism",
            Valued::Rank => "--rank",
            Valued::Depth => "--depth",
            Valued::MaxPaths => "--max-paths",
            Valued::Max => "--max",
            Valued::Pick => "--pick",
            Valued::Save => "--save",
            Valued::Output => "--output",
            Valued::Trace => "--trace",
        }
    }
}

/// The option with a value that a word names.
pub open spec fn valued_of(word: Seq<char>) -> Option<Valued> {
    if word == "--to"@ {
        Some(Valued::To)
    } else if word == "--converge"@ {
        Some(Valued::Converge)
    } else if word == "--where"@ {
        Some(Valued::Where)
    } else if word == "--mechanism"@ {
        Some(Valued::Mechanism)
    } else if word == "--rank"@ {
        Some(Valued::Rank)
    } else if word == "--depth"@ {
        Some(Valued::Depth)
    } else if word == "--max-paths"@ {
        Some(Valued::MaxPaths)
    } else if word == "--max"@ {
        Some(Valued::Max)
    } else if word == "--pick"@ {
        Some(Valued::Pick)
    } else if word == "--save"@ {
        Some(Valued::Save)
    } else if is_output_flag(word) {
        Some(Valued::Output)
    } else if word == "--trace"@ {
        Some(Valued::Trace)
    } else {
        None
    }
}

/// The option with a value that a word names.
fn read_valued(word: &str) -> (r: Option<Valued>)
    ensures
        r == valued_of(word@),
{
    if same_text(word, "--to") {
        Some(Valued::To)
    } else if same_text(word, "--converge") {
        Some(Valued::Converge)
    } else if same_text(word, "--where") {
        Some(Valued::Where)
    } else if same_text(word, "--mechanism") {
        Some(Valued::Mechanism)
    } else if same_text(word, "--rank") {
        Some(Valued::Rank)
    } else if same_text(word, "--depth") {
        Some(Valued::Depth)
    } else if same_text(word, "--max-paths") {
        Some(Valued::MaxPaths)
    } else if same_text(word, "--max") {
        Some(Valued::Max)
    } else if same_text(word, "--pick") {
        Some(Valued::Pick)
    } else if same_text(word, "--save") {
        Some(Valued::Save)
    } else if same_text(word, "-o") || same_text(word, "--output") {
        Some(Valued::Output)
    } else if same_text(word, "--trace") {
        Some(Valued::Trace)
    } else {
        None
    }
}

/// The options with one more that has a value, unless the value is to be a
/// number and is none.
pub open spec fn with_value(o: PlanView, option: Valued, value: Seq<char>) -> Option<PlanView> {
    match option {
        Valued::To => Some(PlanView { to: o.to.push(value), ..o }),
        Valued::Converge => Some(PlanView { converge: value, configured: true, ..o }),
        Valued::Where => Some(PlanView { location: value, configured: true, ..o }),
        Valued::Mechanism => Some(PlanView { mechanism: value, configured: true, ..o }),
        Valued::Rank => Some(PlanView { rank: value, ..o }),
        Valued::Depth => match count_of(value) {
            Some(n) => Some(PlanView { depth: n, ..o }),
            None => None,
        },
        Valued::MaxPaths => match count_of(value) {
            Some(n) => Some(PlanView { max_paths: n, ..o }),
            None => None,
        },
        Valued::Max => match count_of(value) {
            Some(n) => Some(PlanView { max: n, ..o }),
            None => None,
        },
        Valued::Pick => match count_of(value) {
            Some(n) => Some(PlanView { pick: n, ..o }),
            None => None,
        },
        Valued::Save => Some(PlanView { save: Some(value), ..o }),
        Valued::Output => Some(PlanView { output: Some(value), ..o }),
        Valued::Trace => Some(PlanView { trace: Some(value), ..o }),
    }
}

/// Reads the words for the planner from `i` on. With `bins` the words are local
/// binaries, up to one that ends their list.
pub open spec fn read_plan(a: Seq<Seq<char>>, i: int, o: PlanView, bins: bool) -> (
    PlanView,
    Option<ExitView>,
)
    decreases a.len() - i,
{
    if i >= a.len() {
        (o, None)
    } else if bins && !ends_bins(a[i], BinsEnd::Flag) {
        read_plan(a, i + 1, PlanView { dev_bins: o.dev_bins.push(a[i]), ..o }, true)
    } else {
        match valued_of(a[i]) {
            Some(option) => if i + 1 >= a.len() {
                (o, Some(refusal(option.flag() + " requires a value"@, 2)))
            } else {
                match with_value(o, option, a[i + 1]) {
                    Some(next) => read_plan(a, i + 2, next, false),
                    None => (o, Some(refusal(count_words(option.flag(), a[i + 1]), 2))),
                }
            },
            None => if a[i] == "--run"@ {
                read_plan(a, i + 1, PlanView { run: true, ..o }, false)
            } else if a[i] == "--force"@ {
                read_plan(a, i + 1, PlanView { force: true, ..o }, false)
            } else if a[i] == "--dev-bins"@ {
                read_plan(a, i + 1, o, true)
            } else if asks_help(a[i]) {
                (o, Some(help()))
            } else if begins(a[i], "-"@) {
                (o, Some(refusal("Unknown plan option '"@ + a[i] + "'."@, 2)))
            } else {
                read_plan(a, i + 1, PlanView { files: o.files.push(a[i]), ..o }, false)
            },
        }
    }
}

/// Takes in one option with its value.
fn set_value(o: &mut PlanOptions, option: Valued, value: &str) -> (r: Option<Exit>)
    ensures
        match with_value(old(o)@, option, value@) {
            Some(next) => r is None && final(o)@ == next,
            None => r matches Some(e) && e@ == refusal(count_words(option.flag(), value@), 2)
                && final(o)@ == old(o)@,
        },
{
    let ghost before = o@;
    match option {
        Valued::To => {
            o.to.push(owned(value));
            assert(texts(o.to@) =~= before.to.push(value@));
        },
        Valued::Converge => {
            o.converge = owned(value);
            o.configured = true;
        },
        Valued::Where => {
            o.location = owned(value);
            o.configured = true;
        },
        Valued::Mechanism => {
            o.mechanism = owned(value);
            o.configured = true;
        },
        Valued::Rank => {
            o.rank = owned(value);
        },
        Valued::Depth => {
            match parse_count(value, option.name()) {
                Ok(n) => {
                    o.depth = n;
                },
                Err(e) => {
                    return Some(e);
                },
            }
        },
        Valued::MaxPaths => {
            match parse_count(value, option.name()) {
                Ok(n) => {
                    o.max_paths = n;
                },
                Err(e) => {
                    return Some(e);
                },
            }
        },
        Valued::Max => {
            match parse_count(value, option.name()) {
                Ok(n) => {
                    o.max = n;
                },
                Err(e) => {
                    return Some(e);
                },
            }
        },
        Valued::Pick => {
            match parse_count(value, option.name()) {
                Ok(n) => {
                    o.pick = n;
                },
                Err(e) => {
                    return Some(e);
                },
            }
        },
        Valued::Save => {
            o.save = Some(owned(value));
        },
        Valued::Output => {
            o.output = Some(owned(value));
        },
        Valued::Trace => {
            o.trace = Some(owned(value));
        },
    }
    assert(o@ =~= with_value(before, option, value@)->0);
    None
}

/// Reads a line for the planner: the options, and how it ends if it cannot be
/// read.
pub fn read_plan_line(args: &Vec<String>, bounds: SearchBounds) -> (r: (PlanOptions, Option<Exit>))
    requires
        args@.len() >= 2,
    ensures
        (r.0@, end_view(r.1)) == read_plan(texts(args@), 2, plan_default(bounds), false),
{
    let ghost a = texts(args@);
    let mut o = PlanOptions {
        to: Vec::new(),
        converge: owned("auto"),
        location: owned("auto"),
        mechanism: owned("any"),
        rank: owned("intent"),
        depth: bounds.depth,
        max_paths: bounds.max_paths,
        max: bounds.max,
        pick: 0,
        save: None,
        run: false,
        output: None,
        force: false,
        dev_bins: Vec::new(),
        trace: None,
        files: Vec::new(),
        configured: false,
    };
    let mut bins: bool = false;
    let mut i: usize = 2;
    assert(o@ =~= plan_default(bounds));
    while i < args.len()
        invariant
            2 <= i <= args@.len(),
            a == texts(args@),
            read_plan(a, i as int, o@, bins) == read_plan(a, 2, plan_default(bounds), false),
        decreases args@.len() - i,
    {
        let word: &str = &args[i];
        assert(word@ == a[i as int]);
        let ghost before = o@;
        if bins && !word_ends_bins(word, BinsEnd::Flag) {
            o.dev_bins.push(owned(word));
            assert(texts(o.dev_bins@) =~= before.dev_bins.push(word@));
            assert(o@ =~= PlanView { dev_bins: before.dev_bins.push(word@), ..before });
            i = i + 1;
            continue;
        }
        bins = false;
        match read_valued(word) {
            Some(option) => {
                if i + 1 >= args.len() {
                    let m = three(option.name(), " requires a value", "");
                    assert(m@ =~= option.flag() + " requires a value"@) by {
                        reveal_strlit("");
                    }
                    return (o, Some(exit_with(m, 2)));
                }
                assert(args@[i + 1]@ == a[i + 1]);
                match set_value(&mut o, option, &args[i + 1]) {
                    Some(e) => {
                        return (o, Some(e));
                    },
                    None => {},
                }
                i = i + 2;
            },
            None => {
                if same_text(word, "--run") {
                    o.run = true;
                    assert(o@ =~= PlanView { run: true, ..before });
                } else if same_text(word, "--force") {
                    o.force = true;
                    assert(o@ =~= PlanView { force: true, ..before });
                } else if same_text(word, "--dev-bins") {
                    bins = true;
                } else if same_text(word, "--help") || same_text(word, "-h") {
                    return (o, Some(exit_help()));
                } else if begins_with(word, "-") {
                    return (o, Some(exit_with(three("Unknown plan option '", word, "'."), 2)));
                } else {
                    o.files.push(owned(word));
                    assert(texts(o.files@) =~= before.files.push(word@));
                    assert(o@ =~= PlanView { files: before.files.push(word@), ..before });
                }
                i = i + 1;
            },
        }
    }
    (o, None)
}

// ---------------------------------------------------------------------------
// What the words mean
// ---------------------------------------------------------------------------

/// Whether paths come together.
#[derive(Debug, Clone, Copy, PartialEq, Eq, Structural)]
pub enum Presence {
    Auto,
    Converged,
    Independent,
}

/// What the word says of it.
pub open spec fn presence_of(word: Seq<char>) -> Option<Presence> {
    if word == "auto"@ {
        Some(Presence::Auto)
    } else if word == "combine"@ {
        Some(Presence::Converged)
    } else if word == "independent"@ {
        Some(Presence::Independent)
    } else {
        None
    }
}

/// What the word says of it.
pub fn parse_presence(word: &str) -> (r: Result<Presence, Exit>)
    ensures
        match r {
            Ok(v) => presence_of(word@) == Some(v),
            Err(e) => presence_of(word@) is None && e@ == refusal("--converge must be auto|combine|independent, got '"@ + word@ + "'"@, 2),
        },
{
    if same_text(word, "auto") {
        Ok(Presence::Auto)
    } else if same_text(word, "combine") {
        Ok(Presence::Converged)
    } else if same_text(word, "independent") {
        Ok(Presence::Independent)
    } else {
        Err(exit_with(three("--converge must be auto|combine|independent, got '", word, "'"), 2))
    }
}

/// By what means paths come together.
#[derive(Debug, Clone, Copy, PartialEq, Eq, Structural)]
pub enum Mechanism {
    Any,
    Generalize,
    Collect,
    Merge,
}

/// What the word says of it.
pub open spec fn mechanism_of(word: Seq<char>) -> Option<Mechanism> {
    if word == "any"@ {
        Some(Mechanism::Any)
    } else if word == "generalize"@ {
        Some(Mechanism::Generalize)
    } else if word == "collect"@ {
        Some(Mechanism::Collect)
    } else if word == "merge"@ {
        Some(Mechanism::Merge)
    } else {
        None
    }
}

/// What the word says of it.
pub fn parse_mechanism(word: &str) -> (r: Result<Mechanism, Exit>)
    ensures
        match r {
            Ok(v) => mechanism_of(word@) == Some(v),
            Err(e) => mechanism_of(word@) is None && e@ == refusal("--mechanism must be any|generalize|collect|merge, got '"@ + word@ + "'"@, 2),
        },
{
    if same_text(word, "any") {
        Ok(Mechanism::Any)
    } else if same_text(word, "generalize") {
        Ok(Mechanism::Generalize)
    } else if same_text(word, "collect") {
        Ok(Mechanism::Collect)
    } else if same_text(word, "merge") {
        Ok(Mechanism::Merge)
    } else {
        Err(exit_with(three("--mechanism must be any|generalize|collect|merge, got '", word, "'"), 2))
    }
}

/// By what plans are ranked.
#[derive(Debug, Clone, Copy, PartialEq, Eq, Structural)]
pub enum Ranking {
    Intent,
    Shortest,
    Cost,
}

/// What the word says of it.
pub open spec fn ranking_of(word: Seq<char>) -> Option<Ranking> {
    if word == "intent"@ {
        Some(Ranking::Intent)
    } else if word == "shortest"@ {
        Some(Ranking::Shortest)
    } else if word == "cost"@ {
        Some(Ranking::Cost)
    } else {
        None
    }
}

/// What the word says of it.
pub fn parse_ranking(word: &str) -> (r: Result<Ranking, Exit>)
    ensures
        match r {
            Ok(v) => ranking_of(word@) == Some(v),
            Err(e) => ranking_of(word@) is None && e@ == refusal("--rank must be intent|shortest|cost, got '"@ + word@ + "'"@, 2),
        },
{
    if same_text(word, "intent") {
        Ok(Ranking::Intent)
    } else if same_text(word, "shortest") {
        Ok(Ranking::Shortest)
    } else if same_text(word, "cost") {
        Ok(Ranking::Cost)
    } else {
        Err(exit_with(three("--rank must be intent|shortest|cost, got '", word, "'"), 2))
    }
}

/// Where paths come together.
#[derive(Debug, Clone, Copy, PartialEq, Eq, Structural)]
pub enum Location {
    Auto,
    Earliest,
    Latest,
    AtSource,
    AtTarget,
    AtDepth(usize),
}

/// What follows `depth=` in a word.
pub open spec fn depth_word(word: Seq<char>) -> Option<Seq<char>> {
    if begins(word, "depth="@) {
        Some(word.subrange("depth="@.len() as int, word.len() as int))
    } else {
        None
    }
}

/// What the word says of where paths come together, or what is wrong with it.
pub open spec fn location_of(word: Seq<char>) -> Result<Location, Seq<char>> {
    if word == "auto"@ {
        Ok(Location::Auto)
    } else if word == "earliest"@ {
        Ok(Location::Earliest)
    } else if word == "latest"@ {
        Ok(Location::Latest)
    } else if word == "source"@ {
        Ok(Location::AtSource)
    } else if word == "target"@ {
        Ok(Location::AtTarget)
    } else {
        match depth_word(word) {
            Some(d) => match count_of(d) {
                Some(n) => Ok(Location::AtDepth(n as usize)),
                None => Err(count_words("--where depth="@, d)),
            },
            None => Err(
                "--where must be auto|earliest|latest|source|target|depth=N, got '"@ + word
                    + "'"@,
            ),
        }
    }
}

/// What the word says of where paths come together.
pub fn parse_location(word: &str) -> (r: Result<Location, Exit>)
    ensures
        match r {
            Ok(v) => location_of(word@) == Ok::<Location, Seq<char>>(v),
            Err(e) => location_of(word@) is Err && e@ == refusal(location_of(word@)->Err_0, 2),
        },
{
    if same_text(word, "auto") {
        Ok(Location::Auto)
    } else if same_text(word, "earliest") {
        Ok(Location::Earliest)
    } else if same_text(word, "latest") {
        Ok(Location::Latest)
    } else if same_text(word, "source") {
        Ok(Location::AtSource)
    } else if same_text(word, "target") {
        Ok(Location::AtTarget)
    } else if begins_with(word, "depth=") {
        let cs = chars_of(word);
        let head = chars_of("depth=").len();
        let d = text_between(&cs, head, cs.len());
        match parse_count(&d, "--where depth=") {
            Ok(n) => Ok(Location::AtDepth(n)),
            Err(e) => Err(e),
        }
    } else {
        Err(
            exit_with(
                three(
                    "--where must be auto|earliest|latest|source|target|depth=N, got '",
                    word,
                    "'",
                ),
                2,
            ),
        )
    }
}

/// How paths come together, and by what plans are ranked.
#[derive(Debug, Clone, Copy, PartialEq, Eq, Structural)]
pub struct Policy {
    pub presence: Presence,
    pub location: Location,
    pub mechanism: Mechanism,
    pub ranking: Ranking,
}

/// What the options say of how paths come together, or what is wrong with them.
/// The first option that is wrong is the one in the message.
pub open spec fn policy_of(o: PlanView) -> Result<Policy, Seq<char>> {
    match presence_of(o.converge) {
        None => Err("--converge must be auto|combine|independent, got '"@ + o.converge + "'"@),
        Some(presence) => match location_of(o.location) {
            Err(m) => Err(m),
            Ok(location) => match mechanism_of(o.mechanism) {
                None => Err(
                    "--mechanism must be any|generalize|collect|merge, got '"@ + o.mechanism
                        + "'"@,
                ),
                Some(mechanism) => match ranking_of(o.rank) {
                    None => Err("--rank must be intent|shortest|cost, got '"@ + o.rank + "'"@),
                    Some(ranking) => Ok(Policy { presence, location, mechanism, ranking }),
                },
            },
        },
    }
}

/// What the options say of how paths come together.
pub fn parse_policy(o: &PlanOptions) -> (r: Result<Policy, Exit>)
    ensures
        match r {
            Ok(p) => policy_of(o@) == Ok::<Policy, Seq<char>>(p),
            Err(e) => policy_of(o@) is Err && e@ == refusal(policy_of(o@)->Err_0, 2),
        },
{
    let presence = match parse_presence(&o.converge) {
        Ok(v) => v,
        Err(e) => {
            return Err(e);
        },
    };
    let location = match parse_location(&o.location) {
        Ok(v) => v,
        Err(e) => {
            return Err(e);
        },
    };
    let mechanism = match parse_mechanism(&o.mechanism) {
        Ok(v) => v,
        Err(e) => {
            return Err(e);
        },
    };
    let ranking = match parse_ranking(&o.rank) {
        Ok(v) => v,
        Err(e) => {
            return Err(e);
        },
    };
    Ok(Policy { presence, location, mechanism, ranking })
}

/// The candidate of the rank that was picked: the first of that rank.
pub fn pick_candidate(ranks: &Vec<usize>, pick: usize) -> (r: Result<usize, Exit>)
    ensures
        match r {
            Ok(i) => i < ranks@.len() && ranks@[i as int] == pick && forall|j: int|
                0 <= j < i ==> ranks@[j] != pick,
            Err(e) => (forall|j: int| 0 <= j < ranks@.len() ==> ranks@[j] != pick) && e@
                == refusal(
                "--pick "@ + decimal(pick as nat) + " is out of range (0.."@ + decimal(
                    ranks@.len(),
                ) + ")"@,
                2,
            ),
        },
{
    let mut i: usize = 0;
    while i < ranks.len()
        invariant
            i <= ranks@.len(),
            forall|j: int| 0 <= j < i ==> ranks@[j] != pick,
        decreases ranks@.len() - i,
    {
        if ranks[i] == pick {
            return Ok(i);
        }
        i = i + 1;
    }
    let mut m = three("--pick ", &decimal_text(pick as u64), " is out of range (0..");
    add_text(&mut m, &decimal_text(ranks.len() as u64));
    add_text(&mut m, ")");
    Err(exit_with(m, 2))
}

/// A candidate as it is listed.
pub open spec fn candidate_text(
    rank: nat,
    label: Seq<char>,
    steps: nat,
    converged: bool,
    diverged: bool,
    notation: Seq<char>,
) -> Seq<char> {
    "  ["@ + decimal(rank) + "] "@ + label + "  ("@ + decimal(steps) + " steps"@ + (if converged {
        ", combined result"@
    } else {
        ""@
    }) + (if diverged {
        ", fan-out"@
    } else {
        ""@
    }) + ")\n      "@ + notation
}

/// A candidate as it is listed.
pub fn candidate_line(
    rank: usize,
    label: &str,
    steps: usize,
    converged: bool,
    diverged: bool,
    notation: &str,
) -> (r: String)
    ensures
        r@ == candidate_text(
            rank as nat,
            label@,
            steps as nat,
            converged,
            diverged,
            notation@,
        ),
{
    let mut out = three("  [", &decimal_text(rank as u64), "] ");
    add_text(&mut out, label);
    add_text(&mut out, "  (");
    add_text(&mut out, &decimal_text(steps as u64));
    add_text(&mut out, " steps");
    if converged {
        add_text(&mut out, ", combined result");
    } else {
        add_text(&mut out, "");
    }
    if diverged {
        add_text(&mut out, ", fan-out");
    } else {
        add_text(&mut out, "");
    }
    add_text(&mut out, ")\n      ");
    add_text(&mut out, notation);
    out
}

/// A target that was discovered, as it is listed: where the sources come
/// together for it, if they do.
pub open spec fn target_line_of(
    title: Seq<char>,
    media: Seq<char>,
    apex: Option<(Seq<char>, nat)>,
    steps: nat,
) -> Seq<char> {
    match apex {
        Some((urn, depth)) => "  combine all → "@ + title + "  ["@ + media + "]  (via "@ + urn
            + " at depth "@ + decimal(depth) + ", ~"@ + decimal(steps) + " steps)"@,
        None => "  convert each → "@ + title + "  ["@ + media + "]  (~"@ + decimal(steps)
            + " steps)"@,
    }
}

/// A target that was discovered, as it is listed.
pub fn target_line(title: &str, media: &str, apex: Option<(&str, usize)>, steps: usize) -> (r:
    String)
    ensures
        r@ == target_line_of(
            title@,
            media@,
            match apex {
                Some((urn, depth)) => Some((urn@, depth as nat)),
                None => None,
            },
            steps as nat,
        ),
{
    match apex {
        Some((urn, depth)) => {
            let mut out = three("  combine all → ", title, "  [");
            add_text(&mut out, media);
            add_text(&mut out, "]  (via ");
            add_text(&mut out, urn);
            add_text(&mut out, " at depth ");
            add_text(&mut out, &decimal_text(depth as u64));
            add_text(&mut out, ", ~");
            add_text(&mut out, &decimal_text(steps as u64));
            add_text(&mut out, " steps)");
            out
        },
        None => {
            let mut out = three("  convert each → ", title, "  [");
            add_text(&mut out, media);
            add_text(&mut out, "]  (~");
            add_text(&mut out, &decimal_text(steps as u64));
            add_text(&mut out, " steps)");
            out
        },
    }
}

/// Law: an option that is given again counts as given last. A target is one
/// more target each time.
pub proof fn law_last_value_counts(
    o: PlanView,
    option: Valued,
    first: Seq<char>,
    second: Seq<char>,
)
    requires
        with_value(o, option, first) is Some,
    ensures
        option != Valued::To ==> with_value(with_value(o, option, first)->0, option, second)
            == with_value(o, option, second),
        option == Valued::To ==> (with_value(with_value(o, option, first)->0, option, second)->0).to
            == o.to.push(first).push(second),
{
}

/// The words of the planner are different.
proof fn lemma_plan_words()
    ensures
        valued_of("--to"@) == Some(Valued::To),
        valued_of("--converge"@) == Some(Valued::Converge),
        valued_of("--where"@) == Some(Valued::Where),
        valued_of("--mechanism"@) == Some(Valued::Mechanism),
        valued_of("--rank"@) == Some(Valued::Rank),
        valued_of("--depth"@) == Some(Valued::Depth),
        valued_of("--max-paths"@) == Some(Valued::MaxPaths),
        valued_of("--max"@) == Some(Valued::Max),
        valued_of("--pick"@) == Some(Valued::Pick),
        valued_of("--save"@) == Some(Valued::Save),
        valued_of("-o"@) == Some(Valued::Output),
        valued_of("--output"@) == Some(Valued::Output),
        valued_of("--trace"@) == Some(Valued::Trace),
        valued_of("--run"@) is None,
        valued_of("--force"@) is None,
        valued_of("--dev-bins"@) is None,
        valued_of("--help"@) is None,
        valued_of("-h"@) is None,
        "--run"@ != "--force"@,
        "--run"@ != "--dev-bins"@,
        "--force"@ != "--dev-bins"@,
        !asks_help("--dev-bins"@),
        forall|w: Seq<char>| !begins(w, "-"@) ==> #[trigger] valued_of(w) is None,
        forall|w: Seq<char>| #[trigger] asks_help(w) ==> begins(w, "-"@) && w != "--run"@ && w
            != "--force"@ && w != "--dev-bins"@,
        begins("--run"@, "-"@),
        begins("--force"@, "-"@),
        begins("--dev-bins"@, "-"@),
{
    reveal_strlit("-");
    reveal_strlit("--to");
    reveal_strlit("--converge");
    reveal_strlit("--where");
    reveal_strlit("--mechanism");
    reveal_strlit("--rank");
    reveal_strlit("--depth");
    reveal_strlit("--max-paths");
    reveal_strlit("--max");
    reveal_strlit("--pick");
    reveal_strlit("--save");
    reveal_strlit("-o");
    reveal_strlit("--output");
    reveal_strlit("--trace");
    reveal_strlit("--run");
    reveal_strlit("--force");
    reveal_strlit("--dev-bins");
    reveal_strlit("--help");
    reveal_strlit("-h");
    assert("--converge"@[2] != "--dev-bins"@[2]);
    assert("--where"@[2] != "--depth"@[2]);
    assert("--where"@[2] != "--trace"@[2]);
    assert("--where"@[2] != "--force"@[2]);
    assert("--mechanism"@[3] != "--max-paths"@[3]);
    assert("--rank"@[2] != "--pick"@[2]);
    assert("--rank"@[2] != "--save"@[2]);
    assert("--rank"@[2] != "--help"@[2]);
    assert("--depth"@[2] != "--trace"@[2]);
    assert("--depth"@[2] != "--force"@[2]);
    assert("--max"@[2] != "--run"@[2]);
    assert("--pick"@[2] != "--save"@[2]);
    assert("--pick"@[2] != "--help"@[2]);
    assert("--save"@[2] != "--help"@[2]);
    assert("-o"@[1] != "-h"@[1]);
    assert("--trace"@[2] != "--force"@[2]);
    assert("--to"@.subrange(0, 1) =~= "-"@);
    assert("--converge"@.subrange(0, 1) =~= "-"@);
    assert("--where"@.subrange(0, 1) =~= "-"@);
    assert("--mechanism"@.subrange(0, 1) =~= "-"@);
    assert("--rank"@.subrange(0, 1) =~= "-"@);
    assert("--depth"@.subrange(0, 1) =~= "-"@);
    assert("--max-paths"@.subrange(0, 1) =~= "-"@);
    assert("--max"@.subrange(0, 1) =~= "-"@);
    assert("--pick"@.subrange(0, 1) =~= "-"@);
    assert("--save"@.subrange(0, 1) =~= "-"@);
    assert("-o"@.subrange(0, 1) =~= "-"@);
    assert("--output"@.subrange(0, 1) =~= "-"@);
    assert("--trace"@.subrange(0, 1) =~= "-"@);
    assert("--run"@.subrange(0, 1) =~= "-"@);
    assert("--force"@.subrange(0, 1) =~= "-"@);
    assert("--dev-bins"@.subrange(0, 1) =~= "-"@);
    assert("--help"@.subrange(0, 1) =~= "-"@);
    assert("-h"@.subrange(0, 1) =~= "-"@);
}

/// What follows is read as a line of its own.
proof fn lemma_plan_rest(a: Seq<Seq<char>>, i: int, o: PlanView, bins: bool)
    requires
        0 <= i <= a.len(),
    ensures
        read_plan(a, i, o, bins) == read_plan(a.subrange(i, a.len() as int), 0, o, bins),
    decreases a.len() - i,
{
    lemma_plan_shift(a, i, i, o, bins);
}

proof fn lemma_plan_shift(a: Seq<Seq<char>>, from: int, i: int, o: PlanView, bins: bool)
    requires
        0 <= from <= i,
        from <= a.len(),
    ensures
        read_plan(a, i, o, bins) == read_plan(
            a.subrange(from, a.len() as int),
            i - from,
            o,
            bins,
        ),
    decreases a.len() - i,
{
    let b = a.subrange(from, a.len() as int);
    if i < a.len() {
        assert(b[i - from] == a[i]);
        if i + 1 < a.len() {
            assert(b[i + 1 - from] == a[i + 1]);
            match valued_of(a[i]) {
                Some(option) => {
                    if let Some(next) = with_value(o, option, a[i + 1]) {
                        lemma_plan_shift(a, from, i + 2, next, false);
                    }
                },
                None => {},
            }
        }
        lemma_plan_shift(
            a,
            from,
            i + 1,
            PlanView { dev_bins: o.dev_bins.push(a[i]), ..o },
            true,
        );
        lemma_plan_shift(a, from, i + 1, PlanView { run: true, ..o }, false);
        lemma_plan_shift(a, from, i + 1, PlanView { force: true, ..o }, false);
        lemma_plan_shift(a, from, i + 1, o, true);
        lemma_plan_shift(a, from, i + 1, PlanView { files: o.files.push(a[i]), ..o }, false);
    }
}

/// Law: an option with a value sets its own field and leaves every other as it
/// is, whatever was read before it and whatever follows. An option that counts
/// is refused where its value is no count; nothing is set then.
pub proof fn law_plan_option_sets_its_own_field(
    flag: Seq<char>,
    value: Seq<char>,
    rest: Seq<Seq<char>>,
    o: PlanView,
)
    ensures
        ({
            let got = read_plan(seq![flag, value] + rest, 0, o, false);
            let count = number(value, usize::MAX as nat);
            &&& flag == "--to"@ ==> got == read_plan(
                rest,
                0,
                PlanView { to: o.to.push(value), ..o },
                false,
            )
            &&& flag == "--converge"@ ==> got == read_plan(
                rest,
                0,
                PlanView { converge: value, configured: true, ..o },
                false,
            )
            &&& flag == "--where"@ ==> got == read_plan(
                rest,
                0,
                PlanView { location: value, configured: true, ..o },
                false,
            )
            &&& flag == "--mechanism"@ ==> got == read_plan(
                rest,
                0,
                PlanView { mechanism: value, configured: true, ..o },
                false,
            )
            &&& flag == "--rank"@ ==> got == read_plan(
                rest,
                0,
                PlanView { rank: value, ..o },
                false,
            )
            &&& flag == "--save"@ ==> got == read_plan(
                rest,
                0,
                PlanView { save: Some(value), ..o },
                false,
            )
            &&& flag == "--trace"@ ==> got == read_plan(
                rest,
                0,
                PlanView { trace: Some(value), ..o },
                false,
            )
            &&& flag == "-o"@ ==> got == read_plan(
                rest,
                0,
                PlanView { output: Some(value), ..o },
                false,
            )
            &&& flag == "--output"@ ==> got == read_plan(
                rest,
                0,
                PlanView { output: Some(value), ..o },
                false,
            )
            &&& flag == "--depth"@ && count is Some ==> got == read_plan(
                rest,
                0,
                PlanView { depth: count->0, ..o },
                false,
            )
            &&& flag == "--depth"@ && count is None ==> got == (
                o,
                Some(
                    refusal(
                        "--depth"@ + " requires a non-negative integer, got '"@ + value + "'"@,
                        2,
                    ),
                ),
            )
            &&& flag == "--max-paths"@ && count is Some ==> got == read_plan(
                rest,
                0,
                PlanView { max_paths: count->0, ..o },
                false,
            )
            &&& flag == "--max-paths"@ && count is None ==> got == (
                o,
                Some(
                    refusal(
                        "--max-paths"@ + " requires a non-negative integer, got '"@ + value + "'"@,
                        2,
                    ),
                ),
            )
            &&& flag == "--max"@ && count is Some ==> got == read_plan(
                rest,
                0,
                PlanView { max: count->0, ..o },
                false,
            )
            &&& flag == "--max"@ && count is None ==> got == (
                o,
                Some(
                    refusal(
                        "--max"@ + " requires a non-negative integer, got '"@ + value + "'"@,
                        2,
                    ),
                ),
            )
            &&& flag == "--pick"@ && count is Some ==> got == read_plan(
                rest,
                0,
                PlanView { pick: count->0, ..o },
                false,
            )
            &&& flag == "--pick"@ && count is None ==> got == (
                o,
                Some(
                    refusal(
                        "--pick"@ + " requires a non-negative integer, got '"@ + value + "'"@,
                        2,
                    ),
                ),
            )
        }),
{
    lemma_plan_words();
    let line = seq![flag, value] + rest;
    assert(line[0] == flag && line[1] == value);
    assert(line.subrange(2, line.len() as int) =~= rest);
    if let Some(option) = valued_of(flag) {
        if let Some(next) = with_value(o, option, value) {
            lemma_plan_rest(line, 2, next, false);
        }
    }
}

/// Law: a word that is no option is one more file; `--run` and `--force` say so
/// and nothing else.
pub proof fn law_plan_word_sets_its_own_field(word: Seq<char>, rest: Seq<Seq<char>>, o: PlanView)
    ensures
        ({
            let got = read_plan(seq![word] + rest, 0, o, false);
            &&& word == "--run"@ ==> got == read_plan(rest, 0, PlanView { run: true, ..o }, false)
            &&& word == "--force"@ ==> got == read_plan(
                rest,
                0,
                PlanView { force: true, ..o },
                false,
            )
            &&& !begins(word, "-"@) ==> got == read_plan(
                rest,
                0,
                PlanView { files: o.files.push(word), ..o },
                false,
            )
            &&& (word == "--help"@ || word == "-h"@) ==> got.0 == o && (got.1 matches Some(e)
                && e.usage && e.code == 0)
        }),
{
    lemma_plan_words();
    let line = seq![word] + rest;
    assert(line[0] == word);
    assert(line.subrange(1, line.len() as int) =~= rest);
    assert(asks_help(word) ==> begins(word, "-"@) && word != "--run"@);
    assert(valued_of("--help"@) is None && valued_of("-h"@) is None);
    lemma_plan_rest(line, 1, PlanView { run: true, ..o }, false);
    lemma_plan_rest(line, 1, PlanView { force: true, ..o }, false);
    lemma_plan_rest(line, 1, PlanView { files: o.files.push(word), ..o }, false);
    let got = read_plan(line, 0, o, false);
    if word == "--run"@ {
        assert(got == read_plan(rest, 0, PlanView { run: true, ..o }, false));
    } else if word == "--force"@ {
        assert(got == read_plan(rest, 0, PlanView { force: true, ..o }, false));
    } else if !begins(word, "-"@) {
        assert(got == read_plan(rest, 0, PlanView { files: o.files.push(word), ..o }, false));
    } else if asks_help(word) {
        assert(got.0 == o);
        assert(got.1 == Some(help()));
    }
}

proof fn lemma_plan_bins(bs: Seq<Seq<char>>, rest: Seq<Seq<char>>, o: PlanView)
    requires
        forall|i: int| 0 <= i < bs.len() ==> !begins(#[trigger] bs[i], "--"@),
        rest.len() == 0 || begins(rest[0], "--"@),
    ensures
        read_plan(bs + rest, 0, o, true) == read_plan(
            rest,
            0,
            PlanView { dev_bins: o.dev_bins + bs, ..o },
            false,
        ),
    decreases bs.len(),
{
    let line = bs + rest;
    if bs.len() == 0 {
        assert(line =~= rest);
        assert(o.dev_bins + bs =~= o.dev_bins);
    } else {
        let more = bs.drop_first();
        assert forall|i: int| 0 <= i < more.len() implies !begins(#[trigger] more[i], "--"@) by {
            assert(more[i] == bs[i + 1]);
        }
        let next = PlanView { dev_bins: o.dev_bins.push(bs[0]), ..o };
        lemma_plan_bins(more, rest, next);
        assert(line[0] == bs[0]);
        assert(line.subrange(1, line.len() as int) =~= more + rest);
        lemma_plan_rest(line, 1, next, true);
        assert(o.dev_bins.push(bs[0]) + more =~= o.dev_bins + bs);
    }
}

/// Law: the words behind `--dev-bins`, up to one that starts with two dashes,
/// are local binaries in that order, and set nothing else.
pub proof fn law_plan_takes_local_binaries(
    bs: Seq<Seq<char>>,
    rest: Seq<Seq<char>>,
    o: PlanView,
)
    requires
        forall|i: int| 0 <= i < bs.len() ==> !begins(#[trigger] bs[i], "--"@),
        rest.len() == 0 || begins(rest[0], "--"@),
    ensures
        read_plan(seq!["--dev-bins"@] + bs + rest, 0, o, false) == read_plan(
            rest,
            0,
            PlanView { dev_bins: o.dev_bins + bs, ..o },
            false,
        ),
{
    lemma_plan_words();
    let line = seq!["--dev-bins"@] + bs + rest;
    assert(line[0] == "--dev-bins"@);
    assert(line.subrange(1, line.len() as int) =~= bs + rest);
    lemma_plan_rest(line, 1, o, true);
    lemma_plan_bins(bs, rest, o);
}

/// Law: a line without words leaves the defaults: one pick, the first, the
/// search bounds as they are, and neither run, nor forced, nor saved.
pub proof fn law_plan_defaults(bounds: SearchBounds)
    ensures
        ({
            let (o, end) = read_plan(Seq::empty(), 0, plan_default(bounds), false);
            &&& end is None
            &&& o.pick == 0
            &&& o.depth == bounds.depth
            &&& o.max_paths == bounds.max_paths
            &&& o.max == bounds.max
            &&& !o.run && !o.force && !o.configured
            &&& o.save is None && o.output is None && o.trace is None
            &&& o.to.len() == 0 && o.files.len() == 0 && o.dev_bins.len() == 0
            &&& policy_of(o) == Ok::<Policy, Seq<char>>(
                Policy {
                    presence: Presence::Auto,
                    location: Location::Auto,
                    mechanism: Mechanism::Any,
                    ranking: Ranking::Intent,
                },
            )
        }),
{
}

/// Law: a target without a colon is an extension: the files that have it.
pub proof fn law_bare_target_is_an_extension(target: Seq<char>)
    requires
        target.len() > 0,
        forall|i: int|
            0 <= i < target.len() ==> is_plain_char(#[trigger] target[i]) && target[i] != ':',
    ensures
        media_parse(target_text(target)) == Some(
            seq![TagView { key: "ext"@, value: Some(target) }],
        ),
{
    reveal_strlit(":");
    reveal_strlit("ext");
    reveal_strlit("media");
    reveal_strlit("media:ext=");
    assert(!occurs(target, ":"@)) by {
        if occurs(target, ":"@) {
            let at = choose|at: int| occurs_at(target, ":"@, at);
            assert(target.subrange(at, at + 1)[0] == ':');
        }
    }
    let ts = seq![TagView { key: "ext"@, value: Some(target) }];
    let parts = ts.map_values(|t: TagView| write_tag(t));
    assert(is_bare(target));
    assert(parts =~= seq!["ext"@ + seq!['='] + target]);
    assert(media_text(ts) =~= "media:ext="@ + target);
    assert forall|i: int, j: int|
        0 <= i < ts.len() && 0 <= j < ts[i].key.len() implies is_plain_char(
        #[trigger] ts[i].key[j],
    ) by {
        assert(ts[i].key[j] == "ext"@[j]);
    }
    lemma_prefixes();
    law_canonical_text_reads_back("media"@, ts);
}

/// Law: each word of a policy means its own thing; `depth=` and a number means
/// that depth; a word that means nothing is refused.
pub proof fn law_policy_words(n: usize)
    ensures
        presence_of("auto"@) == Some(Presence::Auto),
        presence_of("combine"@) == Some(Presence::Converged),
        presence_of("independent"@) == Some(Presence::Independent),
        mechanism_of("any"@) == Some(Mechanism::Any),
        mechanism_of("generalize"@) == Some(Mechanism::Generalize),
        mechanism_of("collect"@) == Some(Mechanism::Collect),
        mechanism_of("merge"@) == Some(Mechanism::Merge),
        ranking_of("intent"@) == Some(Ranking::Intent),
        ranking_of("shortest"@) == Some(Ranking::Shortest),
        ranking_of("cost"@) == Some(Ranking::Cost),
        location_of("auto"@) == Ok::<Location, Seq<char>>(Location::Auto),
        location_of("earliest"@) == Ok::<Location, Seq<char>>(Location::Earliest),
        location_of("latest"@) == Ok::<Location, Seq<char>>(Location::Latest),
        location_of("source"@) == Ok::<Location, Seq<char>>(Location::AtSource),
        location_of("target"@) == Ok::<Location, Seq<char>>(Location::AtTarget),
        location_of("depth="@ + decimal(n as nat)) == Ok::<Location, Seq<char>>(
            Location::AtDepth(n),
        ),
        forall|w: Seq<char>| #[trigger]
            presence_of(w) is Some ==> w == "auto"@ || w == "combine"@ || w == "independent"@,
        forall|w: Seq<char>| #[trigger]
            mechanism_of(w) is Some ==> w == "any"@ || w == "generalize"@ || w == "collect"@ || w
                == "merge"@,
        forall|w: Seq<char>| #[trigger]
            ranking_of(w) is Some ==> w == "intent"@ || w == "shortest"@ || w == "cost"@,
{
    reveal_strlit("auto");
    reveal_strlit("combine");
    reveal_strlit("independent");
    reveal_strlit("any");
    reveal_strlit("generalize");
    reveal_strlit("collect");
    reveal_strlit("merge");
    reveal_strlit("intent");
    reveal_strlit("shortest");
    reveal_strlit("cost");
    reveal_strlit("earliest");
    reveal_strlit("latest");
    reveal_strlit("source");
    reveal_strlit("target");
    reveal_strlit("depth=");
    assert("latest"@[0] != "source"@[0] && "latest"@[0] != "target"@[0]);
    assert("source"@[0] != "target"@[0]);
    assert("auto"@.len() != "combine"@.len() && "auto"@.len() != "independent"@.len());
    assert("combine"@.len() != "independent"@.len());
    assert("any"@.len() != "generalize"@.len() && "any"@.len() != "collect"@.len());
    assert("any"@.len() != "merge"@.len() && "generalize"@.len() != "collect"@.len());
    assert("generalize"@.len() != "merge"@.len() && "collect"@.len() != "merge"@.len());
    assert("intent"@.len() != "shortest"@.len() && "intent"@.len() != "cost"@.len());
    assert("shortest"@.len() != "cost"@.len());
    assert("auto"@.len() != "earliest"@.len() && "auto"@.len() != "latest"@.len());
    assert("auto"@.len() != "source"@.len() && "auto"@.len() != "target"@.len());
    assert("earliest"@.len() != "latest"@.len() && "earliest"@.len() != "source"@.len());
    assert("earliest"@.len() != "target"@.len());
    let w = "depth="@ + decimal(n as nat);
    assert(w[0] == 'd');
    assert(w[0] != "auto"@[0] && w[0] != "earliest"@[0] && w[0] != "latest"@[0]);
    assert(w[0] != "source"@[0] && w[0] != "target"@[0]);
    assert(w.subrange(0, 6) =~= "depth="@);
    assert(w.subrange(6, w.len() as int) =~= decimal(n as nat));
    law_decimal_reads_back(n as nat, usize::MAX as nat);
}

/// Law: each part of a policy is read from the word of its own option.
pub proof fn law_policy_reads_each_option(o: PlanView, p: Policy)
    requires
        policy_of(o) == Ok::<Policy, Seq<char>>(p),
    ensures
        presence_of(o.converge) == Some(p.presence),
        location_of(o.location) == Ok::<Location, Seq<char>>(p.location),
        mechanism_of(o.mechanism) == Some(p.mechanism),
        ranking_of(o.rank) == Some(p.ranking),
{
}

} // verus!
