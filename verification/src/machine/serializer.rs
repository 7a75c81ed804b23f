//! The notation of a machine: one header for each cap, then one wiring for each
//! edge, and the payload that a graph renderer draws from.
//!
//! The notation of a machine is a function of what the machine is: edges are
//! numbered over all strands in order, and so are the data positions, so that
//! equivalent machines have the same notation.

use crate::fabric::registry::{display_alias, norm_cap, norm_media, FabricRegistry};
use crate::machine::graph::{Machine, MachineAbstractionError, MachineEdge, MachineStrand, NodeId};
use crate::machine::notation::lemma_decimal_injective;
use crate::text::{
    add_text, chars_of, decimal, decimal_text_wide, join, joined, opt_text, owned, texts,
};
use crate::urn::{cap_text, media_text};
use vstd::prelude::*;

verus! {

broadcast use vstd::string::group_string_axioms;

// ---------------------------------------------------------------------------
// The notation in the model
// ---------------------------------------------------------------------------

/// How a notation is laid out.
#[derive(Debug, Clone, Copy, PartialEq, Eq, Structural)]
pub enum NotationFormat {
    /// Each statement in brackets, all on one line.
    Bracketed,
    /// One statement on each line, without brackets.
    LineBased,
}

/// What stands for each cap that has an alias: the alias of a cap URN's
/// canonical text, or none.
pub type Aliases = spec_fn(Seq<char>) -> Option<Seq<char>>;

/// No cap has an alias.
pub open spec fn no_aliases() -> Aliases {
    |urn: Seq<char>| None::<Seq<char>>
}

/// Each cap has the alias that the registry shows it under.
pub open spec fn registry_aliases(registry: FabricRegistry) -> Aliases {
    |urn: Seq<char>| display_alias(registry.aliases.entries@, urn)
}

/// The name of the data position with this number.
pub open spec fn node_name(n: int) -> Seq<char> {
    "n"@ + decimal(n as nat)
}

/// What stands for the cap of the edge with this number.
pub open spec fn edge_token(edge: MachineEdge, n: int, aliases: Aliases) -> Seq<char> {
    match aliases(cap_text(edge.cap_urn@)) {
        Some(alias) => alias,
        None => "edge_"@ + decimal(n as nat),
    }
}

/// How many edges the strands have.
pub open spec fn edge_count(strands: Seq<MachineStrand>) -> nat
    decreases strands.len(),
{
    if strands.len() == 0 {
        0
    } else {
        edge_count(strands.drop_last()) + strands.last().edges@.len()
    }
}

/// How many data positions the strands have.
pub open spec fn node_count(strands: Seq<MachineStrand>) -> nat
    decreases strands.len(),
{
    if strands.len() == 0 {
        0
    } else {
        node_count(strands.drop_last()) + strands.last().nodes@.len()
    }
}

/// The names of the data positions that feed an edge; `base` is the number of
/// the strand's first position.
pub open spec fn source_names(edge: MachineEdge, base: int) -> Seq<Seq<char>> {
    Seq::new(edge.assignment@.len(), |i: int| node_name(base + edge.assignment@[i].source))
}

/// A wiring: what feeds the cap, the cap, and where its result goes.
pub open spec fn wiring(edge: MachineEdge, token: Seq<char>, base: int) -> Seq<char> {
    let names = source_names(edge, base);
    let group = if names.len() == 1 {
        names[0]
    } else {
        "("@ + joined(names, ", "@) + ")"@
    };
    group + " -> "@ + (if edge.is_loop {
        "LOOP "@
    } else {
        ""@
    }) + token + " -> "@ + node_name(base + edge.target)
}

/// A header: what stands for a cap, and the cap.
pub open spec fn header(edge: MachineEdge, token: Seq<char>) -> Seq<char> {
    token + " "@ + cap_text(edge.cap_urn@)
}

/// The headers of a strand's first `n` edges: one for each cap without an
/// alias.
pub open spec fn strand_headers(strand: MachineStrand, n: int, first: int, aliases: Aliases) -> Seq<
    Seq<char>,
>
    decreases n,
{
    if n <= 0 {
        Seq::empty()
    } else {
        let before = strand_headers(strand, n - 1, first, aliases);
        let edge = strand.edges@[n - 1];
        if aliases(cap_text(edge.cap_urn@)) is None {
            before.push(header(edge, edge_token(edge, first + n - 1, aliases)))
        } else {
            before
        }
    }
}

/// The wirings of a strand's first `n` edges.
pub open spec fn strand_wirings(
    strand: MachineStrand,
    n: int,
    first: int,
    base: int,
    aliases: Aliases,
) -> Seq<Seq<char>>
    decreases n,
{
    if n <= 0 {
        Seq::empty()
    } else {
        let edge = strand.edges@[n - 1];
        strand_wirings(strand, n - 1, first, base, aliases).push(
            wiring(edge, edge_token(edge, first + n - 1, aliases), base),
        )
    }
}

/// The headers of all strands.
pub open spec fn headers(strands: Seq<MachineStrand>, aliases: Aliases) -> Seq<Seq<char>>
    decreases strands.len(),
{
    if strands.len() == 0 {
        Seq::empty()
    } else {
        let rest = strands.drop_last();
        let s = strands.last();
        headers(rest, aliases) + strand_headers(
            s,
            s.edges@.len() as int,
            edge_count(rest) as int,
            aliases,
        )
    }
}

/// The wirings of all strands.
pub open spec fn wirings(strands: Seq<MachineStrand>, aliases: Aliases) -> Seq<Seq<char>>
    decreases strands.len(),
{
    if strands.len() == 0 {
        Seq::empty()
    } else {
        let rest = strands.drop_last();
        let s = strands.last();
        wirings(rest, aliases) + strand_wirings(
            s,
            s.edges@.len() as int,
            edge_count(rest) as int,
            node_count(rest) as int,
            aliases,
        )
    }
}

/// The statements of a machine's notation: all headers, then all wirings.
pub open spec fn statements(strands: Seq<MachineStrand>, aliases: Aliases) -> Seq<Seq<char>> {
    headers(strands, aliases) + wirings(strands, aliases)
}

/// A statement in brackets.
pub open spec fn bracketed(s: Seq<char>) -> Seq<char> {
    "["@ + s + "]"@
}

/// The statements in brackets.
pub open spec fn all_bracketed(ss: Seq<Seq<char>>) -> Seq<Seq<char>> {
    Seq::new(ss.len(), |i: int| bracketed(ss[i]))
}

/// The texts one behind the other.
pub open spec fn run_together(ss: Seq<Seq<char>>) -> Seq<char>
    decreases ss.len(),
{
    if ss.len() == 0 {
        Seq::empty()
    } else {
        run_together(ss.drop_last()) + ss.last()
    }
}

/// The statements as they are laid out.
pub open spec fn laid_out(ss: Seq<Seq<char>>, format: NotationFormat) -> Seq<char> {
    match format {
        NotationFormat::Bracketed => run_together(all_bracketed(ss)),
        NotationFormat::LineBased => joined(ss, "\n"@),
    }
}

// ---------------------------------------------------------------------------
// The plan: numbers and names
// ---------------------------------------------------------------------------

/// How the caps of a notation are named.
#[derive(Clone, Copy)]
enum CapRendering<'a> {
    /// By their URN, in a header.
    CanonicalUrn,
    /// By the alias that the registry shows them under, where there is one.
    Aliased(&'a FabricRegistry),
}

/// The aliases that a rendering uses.
spec fn rendering_aliases(rendering: CapRendering<'_>) -> Aliases {
    match rendering {
        CapRendering::CanonicalUrn => no_aliases(),
        CapRendering::Aliased(registry) => registry_aliases(*registry),
    }
}

/// The names of one strand's edges and data positions.
struct StrandPlan {
    /// What stands for the cap of each edge.
    edge_tokens: Vec<String>,
    /// Whether each edge has a header.
    needs_header: Vec<bool>,
    /// The name of each data position.
    node_names: Vec<String>,
}

/// The plan names what a strand's notation names.
spec fn planned(
    plan: StrandPlan,
    strand: MachineStrand,
    first: int,
    base: int,
    aliases: Aliases,
) -> bool {
    &&& plan.edge_tokens@.len() == strand.edges@.len()
    &&& plan.needs_header@.len() == strand.edges@.len()
    &&& plan.node_names@.len() == strand.nodes@.len()
    &&& forall|i: int|
        0 <= i < strand.edges@.len() ==> (#[trigger] plan.edge_tokens@[i])@ == edge_token(
            strand.edges@[i],
            first + i,
            aliases,
        )
    &&& forall|i: int|
        0 <= i < strand.edges@.len() ==> #[trigger] plan.needs_header@[i] == (aliases(
            cap_text(strand.edges@[i].cap_urn@),
        ) is None)
    &&& forall|i: int|
        0 <= i < strand.nodes@.len() ==> (#[trigger] plan.node_names@[i])@ == node_name(base + i)
}

/// The plan of all strands.
spec fn all_planned(
    plans: Seq<StrandPlan>,
    strands: Seq<MachineStrand>,
    aliases: Aliases,
) -> bool {
    &&& plans.len() == strands.len()
    &&& forall|i: int|
        0 <= i < strands.len() ==> planned(
            #[trigger] plans[i],
            strands[i],
            edge_count(strands.subrange(0, i)) as int,
            node_count(strands.subrange(0, i)) as int,
            aliases,
        )
}

impl<'a> CapRendering<'a> {
    /// The alias that the cap of an edge is named by.
    fn cap_alias(&self, edge: &MachineEdge) -> (r: Option<String>)
        ensures
            opt_text(r) == rendering_aliases(*self)(cap_text(edge.cap_urn@)),
    {
        match self {
            CapRendering::CanonicalUrn => None,
            CapRendering::Aliased(registry) => registry.display_alias_for_urn(
                &edge.cap_urn.to_string(),
            ),
        }
    }
}

/// The plan of one strand, whose first edge and data position have these
/// numbers.
fn plan_strand(strand: &MachineStrand, rendering: CapRendering<'_>, first: u128, base: u128) -> (r:
    StrandPlan)
    requires
        first + strand.edges@.len() <= u128::MAX,
        base + strand.nodes@.len() <= u128::MAX,
    ensures
        planned(r, *strand, first as int, base as int, rendering_aliases(rendering)),
{
    let mut edge_tokens: Vec<String> = Vec::new();
    let mut needs_header: Vec<bool> = Vec::new();
    let ghost aliases = rendering_aliases(rendering);
    let mut i: usize = 0;
    while i < strand.edges.len()
        invariant
            i <= strand.edges@.len(),
            first + strand.edges@.len() <= u128::MAX,
            aliases == rendering_aliases(rendering),
            edge_tokens@.len() == i,
            needs_header@.len() == i,
            forall|j: int|
                0 <= j < i ==> (#[trigger] edge_tokens@[j])@ == edge_token(
                    strand.edges@[j],
                    first + j,
                    aliases,
                ),
            forall|j: int|
                0 <= j < i ==> #[trigger] needs_header@[j] == (aliases(
                    cap_text(strand.edges@[j].cap_urn@),
                ) is None),
        decreases strand.edges@.len() - i,
    {
        match rendering.cap_alias(&strand.edges[i]) {
            Some(alias) => {
                edge_tokens.push(alias);
                needs_header.push(false);
            },
            None => {
                let mut token = owned("edge_");
                add_text(&mut token, &decimal_text_wide(first + i as u128));
                edge_tokens.push(token);
                needs_header.push(true);
            },
        }
        i = i + 1;
    }
    let mut node_names: Vec<String> = Vec::new();
    let mut k: usize = 0;
    while k < strand.nodes.len()
        invariant
            k <= strand.nodes@.len(),
            base + strand.nodes@.len() <= u128::MAX,
            node_names@.len() == k,
            forall|j: int| 0 <= j < k ==> (#[trigger] node_names@[j])@ == node_name(base + j),
        decreases strand.nodes@.len() - k,
    {
        let mut name = owned("n");
        add_text(&mut name, &decimal_text_wide(base + k as u128));
        node_names.push(name);
        k = k + 1;
    }
    StrandPlan { edge_tokens, needs_header, node_names }
}

/// The plan of a machine.
fn build_serialization_plan(machine: &Machine, rendering: CapRendering<'_>) -> (r: Vec<StrandPlan>)
    ensures
        all_planned(r@, machine.strands@, rendering_aliases(rendering)),
{
    let mut plans: Vec<StrandPlan> = Vec::new();
    let mut next_edge: u128 = 0;
    let mut next_node: u128 = 0;
    let mut i: usize = 0;
    let ghost strands = machine.strands@;
    let ghost aliases = rendering_aliases(rendering);
    while i < machine.strands.len()
        invariant
            i <= machine.strands.len(),
            strands == machine.strands@,
            aliases == rendering_aliases(rendering),
            next_edge == edge_count(strands.subrange(0, i as int)),
            next_node == node_count(strands.subrange(0, i as int)),
            next_edge <= i * 0xffff_ffff_ffff_ffff,
            next_node <= i * 0xffff_ffff_ffff_ffff,
            plans@.len() == i,
            forall|k: int|
                0 <= k < i ==> planned(
                    #[trigger] plans@[k],
                    strands[k],
                    edge_count(strands.subrange(0, k)) as int,
                    node_count(strands.subrange(0, k)) as int,
                    aliases,
                ),
        decreases strands.len() - i,
    {
        let strand = &machine.strands[i];
        let edges: u128 = strand.edges.len() as u128;
        let nodes: u128 = strand.nodes.len() as u128;
        proof {
            assert(i * 0xffff_ffff_ffff_ffff + 0xffff_ffff_ffff_ffff == (i + 1)
                * 0xffff_ffff_ffff_ffff) by (nonlinear_arith);
            assert((i + 1) * 0xffff_ffff_ffff_ffff <= u128::MAX) by (nonlinear_arith)
                requires
                    i < 0xffff_ffff_ffff_ffff,
            ;
            assert(strands.subrange(0, i + 1).drop_last() =~= strands.subrange(0, i as int));
        }
        let plan = plan_strand(strand, rendering, next_edge, next_node);
        plans.push(plan);
        next_edge = next_edge + edges;
        next_node = next_node + nodes;
        i = i + 1;
    }
    plans
}

// ---------------------------------------------------------------------------
// Writing statements
// ---------------------------------------------------------------------------

/// The wiring of one edge.
fn format_wiring(
    edge: &MachineEdge,
    alias: &str,
    node_names: &Vec<String>,
    base: Ghost<int>,
) -> (r: String)
    requires
        edge.wf(node_names@.len()),
        forall|i: int|
            0 <= i < node_names@.len() ==> (#[trigger] node_names@[i])@ == node_name(base@ + i),
    ensures
        r@ == wiring(*edge, alias@, base@),
{
    let ghost names = source_names(*edge, base@);
    let mut sources: Vec<String> = Vec::new();
    let mut i: usize = 0;
    while i < edge.assignment.len()
        invariant
            i <= edge.assignment@.len(),
            edge.wf(node_names@.len()),
            names == source_names(*edge, base@),
            forall|i: int|
                0 <= i < node_names@.len() ==> (#[trigger] node_names@[i])@ == node_name(
                    base@ + i,
                ),
            sources@.len() == i,
            forall|j: int| 0 <= j < i ==> (#[trigger] sources@[j])@ == names[j],
        decreases edge.assignment@.len() - i,
    {
        sources.push(node_names[edge.assignment[i].source as usize].clone());
        i = i + 1;
    }
    assert(texts(sources@) =~= names);
    let mut out = if sources.len() == 1 {
        sources[0].clone()
    } else {
        let mut group = owned("(");
        add_text(&mut group, &join(&sources, ", "));
        add_text(&mut group, ")");
        group
    };
    add_text(&mut out, " -> ");
    if edge.is_loop {
        add_text(&mut out, "LOOP ");
    } else {
        add_text(&mut out, "");
    }
    add_text(&mut out, alias);
    add_text(&mut out, " -> ");
    add_text(&mut out, &node_names[edge.target as usize]);
    out
}

/// Appends a text to a list.
fn push_text(v: &mut Vec<String>, s: String)
    ensures
        texts(final(v)@) == texts(old(v)@).push(s@),
{
    let ghost before = texts(v@);
    let ghost added = s@;
    v.push(s);
    assert(texts(v@) =~= before.push(added));
}

/// Appends the headers of a strand.
fn push_headers(
    out: &mut Vec<String>,
    strand: &MachineStrand,
    plan: &StrandPlan,
    first: Ghost<int>,
    base: Ghost<int>,
    aliases: Ghost<Aliases>,
)
    requires
        planned(*plan, *strand, first@, base@, aliases@),
    ensures
        texts(final(out)@) == texts(old(out)@) + strand_headers(
            *strand,
            strand.edges@.len() as int,
            first@,
            aliases@,
        ),
{
    let ghost start = texts(out@);
    let mut i: usize = 0;
    assert(start + Seq::<Seq<char>>::empty() =~= start);
    while i < strand.edges.len()
        invariant
            i <= strand.edges@.len(),
            planned(*plan, *strand, first@, base@, aliases@),
            texts(out@) == start + strand_headers(*strand, i as int, first@, aliases@),
        decreases strand.edges@.len() - i,
    {
        if plan.needs_header[i] {
            let mut h = plan.edge_tokens[i].clone();
            add_text(&mut h, " ");
            add_text(&mut h, &strand.edges[i].cap_urn.to_string());
            assert(h@ == header(
                strand.edges@[i as int],
                edge_token(strand.edges@[i as int], first@ + i, aliases@),
            ));
            push_text(out, h);
        }
        assert(texts(out@) =~= start + strand_headers(*strand, i + 1, first@, aliases@));
        i = i + 1;
    }
}

/// Appends the wirings of a strand.
fn push_wirings(
    out: &mut Vec<String>,
    strand: &MachineStrand,
    plan: &StrandPlan,
    first: Ghost<int>,
    base: Ghost<int>,
    aliases: Ghost<Aliases>,
)
    requires
        strand.wf(),
        planned(*plan, *strand, first@, base@, aliases@),
    ensures
        texts(final(out)@) == texts(old(out)@) + strand_wirings(
            *strand,
            strand.edges@.len() as int,
            first@,
            base@,
            aliases@,
        ),
{
    let ghost start = texts(out@);
    let mut i: usize = 0;
    assert(start + Seq::<Seq<char>>::empty() =~= start);
    while i < strand.edges.len()
        invariant
            i <= strand.edges@.len(),
            strand.wf(),
            planned(*plan, *strand, first@, base@, aliases@),
            texts(out@) == start + strand_wirings(*strand, i as int, first@, base@, aliases@),
        decreases strand.edges@.len() - i,
    {
        let w = format_wiring(&strand.edges[i], &plan.edge_tokens[i], &plan.node_names, base);
        push_text(out, w);
        assert(texts(out@) =~= start + strand_wirings(*strand, i + 1, first@, base@, aliases@));
        i = i + 1;
    }
}

/// The statements of a machine.
fn all_statements(machine: &Machine, plans: &Vec<StrandPlan>, aliases: Ghost<Aliases>) -> (r: Vec<
    String,
>)
    requires
        machine.wf(),
        all_planned(plans@, machine.strands@, aliases@),
    ensures
        texts(r@) == statements(machine.strands@, aliases@),
{
    let mut out: Vec<String> = Vec::new();
    let ghost strands = machine.strands@;
    let mut i: usize = 0;
    assert(strands.subrange(0, 0) =~= Seq::<MachineStrand>::empty());
    assert(texts(out@) =~= Seq::<Seq<char>>::empty());
    while i < machine.strands.len()
        invariant
            i <= machine.strands@.len(),
            strands == machine.strands@,
            all_planned(plans@, strands, aliases@),
            texts(out@) == headers(strands.subrange(0, i as int), aliases@),
        decreases strands.len() - i,
    {
        let ghost rest = strands.subrange(0, i as int);
        assert(strands.subrange(0, i + 1).drop_last() =~= rest);
        push_headers(
            &mut out,
            &machine.strands[i],
            &plans[i],
            Ghost(edge_count(rest) as int),
            Ghost(node_count(rest) as int),
            aliases,
        );
        i = i + 1;
    }
    assert(strands.subrange(0, strands.len() as int) =~= strands);
    let ghost heads = headers(strands, aliases@);
    let mut k: usize = 0;
    assert(heads + Seq::<Seq<char>>::empty() =~= heads);
    while k < machine.strands.len()
        invariant
            k <= machine.strands@.len(),
            machine.wf(),
            strands == machine.strands@,
            all_planned(plans@, strands, aliases@),
            texts(out@) == heads + wirings(strands.subrange(0, k as int), aliases@),
        decreases strands.len() - k,
    {
        let ghost rest = strands.subrange(0, k as int);
        assert(strands.subrange(0, k + 1).drop_last() =~= rest);
        let ghost before = texts(out@);
        push_wirings(
            &mut out,
            &machine.strands[k],
            &plans[k],
            Ghost(edge_count(rest) as int),
            Ghost(node_count(rest) as int),
            aliases,
        );
        assert(texts(out@) =~= heads + wirings(strands.subrange(0, k + 1), aliases@));
        k = k + 1;
    }
    out
}

/// The statement in brackets.
fn in_brackets(s: &str) -> (r: String)
    ensures
        r@ == bracketed(s@),
{
    let mut out = owned("[");
    add_text(&mut out, s);
    add_text(&mut out, "]");
    out
}

/// The statements in brackets, one behind the other.
fn emit_bracketed(ss: &Vec<String>) -> (r: String)
    ensures
        r@ == run_together(all_bracketed(texts(ss@))),
{
    let mut out = String::new();
    let ghost all = all_bracketed(texts(ss@));
    let mut i: usize = 0;
    while i < ss.len()
        invariant
            i <= ss@.len(),
            all == all_bracketed(texts(ss@)),
            out@ == run_together(all.subrange(0, i as int)),
        decreases ss@.len() - i,
    {
        assert(all.subrange(0, i + 1).drop_last() =~= all.subrange(0, i as int));
        add_text(&mut out, &in_brackets(&ss[i]));
        i = i + 1;
    }
    assert(all.subrange(0, all.len() as int) =~= all);
    out
}

/// The statements in brackets, one on each line.
fn emit_multiline(ss: &Vec<String>) -> (r: String)
    ensures
        r@ == joined(all_bracketed(texts(ss@)), "\n"@),
{
    let mut lines: Vec<String> = Vec::new();
    let ghost all = all_bracketed(texts(ss@));
    let mut i: usize = 0;
    while i < ss.len()
        invariant
            i <= ss@.len(),
            all == all_bracketed(texts(ss@)),
            lines@.len() == i,
            forall|j: int| 0 <= j < i ==> (#[trigger] lines@[j])@ == all[j],
        decreases ss@.len() - i,
    {
        lines.push(in_brackets(&ss[i]));
        i = i + 1;
    }
    assert(texts(lines@) =~= all);
    join(&lines, "\n")
}

impl Machine {
    /// The notation in brackets on one line, with every cap by its URN.
    pub fn to_machine_notation(&self) -> (r: Result<String, MachineAbstractionError>)
        requires
            self.wf(),
        ensures
            r is Ok,
            r->Ok_0@ == laid_out(
                statements(self.strands@, no_aliases()),
                NotationFormat::Bracketed,
            ),
    {
        self.to_machine_notation_formatted(NotationFormat::Bracketed)
    }

    /// The notation in brackets, one statement on each line.
    pub fn to_machine_notation_multiline(&self) -> (r: Result<String, MachineAbstractionError>)
        requires
            self.wf(),
        ensures
            r is Ok,
            r->Ok_0@ == joined(all_bracketed(statements(self.strands@, no_aliases())), "\n"@),
    {
        let plan = build_serialization_plan(self, CapRendering::CanonicalUrn);
        let ss = all_statements(self, &plan, Ghost(no_aliases()));
        Ok(emit_multiline(&ss))
    }

    /// The notation in a format, with every cap by its URN.
    pub fn to_machine_notation_formatted(&self, format: NotationFormat) -> (r: Result<
        String,
        MachineAbstractionError,
    >)
        requires
            self.wf(),
        ensures
            r is Ok,
            r->Ok_0@ == laid_out(statements(self.strands@, no_aliases()), format),
    {
        let plan = build_serialization_plan(self, CapRendering::CanonicalUrn);
        let ss = all_statements(self, &plan, Ghost(no_aliases()));
        match format {
            NotationFormat::Bracketed => Ok(emit_bracketed(&ss)),
            NotationFormat::LineBased => Ok(join(&ss, "\n")),
        }
    }

    /// The notation in a format, with every cap that has an alias by the alias
    /// that the registry shows it under.
    pub fn to_machine_notation_aliased(
        &self,
        registry: &FabricRegistry,
        format: NotationFormat,
    ) -> (r: Result<String, MachineAbstractionError>)
        requires
            self.wf(),
        ensures
            r is Ok,
            r->Ok_0@ == laid_out(statements(self.strands@, registry_aliases(*registry)), format),
    {
        let plan = build_serialization_plan(self, CapRendering::Aliased(registry));
        let ss = all_statements(self, &plan, Ghost(registry_aliases(*registry)));
        match format {
            NotationFormat::Bracketed => Ok(emit_bracketed(&ss)),
            NotationFormat::LineBased => Ok(join(&ss, "\n")),
        }
    }
}

// ---------------------------------------------------------------------------
// The payload of the graph renderer
// ---------------------------------------------------------------------------

/// A character inside a JSON string.
pub open spec fn escaped_char(c: char) -> Seq<char> {
    if c == '\\' {
        seq!['\\', '\\']
    } else if c == '"' {
        seq!['\\', '"']
    } else if c == '\n' {
        seq!['\\', 'n']
    } else if c == '\r' {
        seq!['\\', 'r']
    } else if c == '\t' {
        seq!['\\', 't']
    } else {
        seq![c]
    }
}

/// A text inside a JSON string.
pub open spec fn json_escaped(s: Seq<char>) -> Seq<char>
    decreases s.len(),
{
    if s.len() == 0 {
        Seq::empty()
    } else {
        json_escaped(s.drop_last()) + escaped_char(s.last())
    }
}

/// A text inside a JSON string.
pub fn json_escape(s: &str) -> (r: String)
    ensures
        r@ == json_escaped(s@),
{
    let cs = chars_of(s);
    let mut out = String::new();
    let mut i: usize = 0;
    while i < cs.len()
        invariant
            i <= cs@.len(),
            out@ == json_escaped(cs@.subrange(0, i as int)),
        decreases cs@.len() - i,
    {
        assert(cs@.subrange(0, i + 1).drop_last() =~= cs@.subrange(0, i as int));
        let ghost before = out@;
        let c = cs[i];
        if c == '\\' {
            out.push('\\');
            out.push('\\');
        } else if c == '"' {
            out.push('\\');
            out.push('"');
        } else if c == '\n' {
            out.push('\\');
            out.push('n');
        } else if c == '\r' {
            out.push('\\');
            out.push('r');
        } else if c == '\t' {
            out.push('\\');
            out.push('t');
        } else {
            out.push(c);
        }
        assert(out@ =~= before + escaped_char(c));
        i = i + 1;
    }
    assert(cs@.subrange(0, cs@.len() as int) =~= cs@);
    out
}

/// A definition that the payload lacks.
pub ghost enum Missing {
    Media(Seq<char>),
    Cap(Seq<char>),
}

/// The title of a cached media definition.
pub open spec fn media_title(registry: FabricRegistry, urn: Seq<char>) -> Option<Seq<char>> {
    if registry.cached_media_defs@.dom().contains(norm_media(urn)) {
        Some(registry.cached_media_defs@[norm_media(urn)].title@)
    } else {
        None
    }
}

/// The title of a cached cap.
pub open spec fn cap_title(registry: FabricRegistry, urn: Seq<char>) -> Option<Seq<char>> {
    if registry.cached_caps@.dom().contains(norm_cap(urn)) {
        Some(registry.cached_caps@[norm_cap(urn)].title@)
    } else {
        None
    }
}

/// A comma, but not before the first item.
pub open spec fn comma(n: int) -> Seq<char> {
    if n > 0 {
        ","@
    } else {
        ""@
    }
}

/// The first `n` data positions of a strand.
pub open spec fn nodes_json(
    registry: FabricRegistry,
    strand: MachineStrand,
    n: int,
    base: int,
) -> Result<Seq<char>, Missing>
    decreases n,
{
    if n <= 0 {
        Ok(Seq::empty())
    } else {
        match nodes_json(registry, strand, n - 1, base) {
            Err(e) => Err(e),
            Ok(before) => {
                let urn = media_text(strand.nodes@[n - 1]@);
                match media_title(registry, urn) {
                    None => Err(Missing::Media(urn)),
                    Some(title) => Ok(
                        before + comma(n - 1) + "{\"id\":\""@ + node_name(base + n - 1)
                            + "\",\"urn\":\""@ + json_escaped(urn) + "\",\"title\":\""@
                            + json_escaped(title) + "\"}"@,
                    ),
                }
            },
        }
    }
}

/// The first `n` arguments of an edge.
pub open spec fn assignment_json(edge: MachineEdge, n: int, base: int) -> Seq<char>
    decreases n,
{
    if n <= 0 {
        Seq::empty()
    } else {
        let b = edge.assignment@[n - 1];
        assignment_json(edge, n - 1, base) + comma(n - 1) + "{\"cap_arg_media_urn\":\""@
            + json_escaped(media_text(b.cap_arg_media_urn@)) + "\",\"source_node\":\""@
            + node_name(base + b.source) + "\"}"@
    }
}

/// The first `n` edges of a strand.
pub open spec fn edges_json(
    registry: FabricRegistry,
    strand: MachineStrand,
    n: int,
    first: int,
    base: int,
) -> Result<Seq<char>, Missing>
    decreases n,
{
    if n <= 0 {
        Ok(Seq::empty())
    } else {
        match edges_json(registry, strand, n - 1, first, base) {
            Err(e) => Err(e),
            Ok(before) => {
                let edge = strand.edges@[n - 1];
                let urn = cap_text(edge.cap_urn@);
                match cap_title(registry, urn) {
                    None => Err(Missing::Cap(urn)),
                    Some(title) => Ok(
                        before + comma(n - 1) + "{\"alias\":\""@ + edge_token(
                            edge,
                            first + n - 1,
                            no_aliases(),
                        ) + "\",\"cap_urn\":\""@ + json_escaped(urn) + "\",\"title\":\""@
                            + json_escaped(title) + "\",\"is_loop\":"@ + (if edge.is_loop {
                            "true"@
                        } else {
                            "false"@
                        }) + ",\"assignment\":["@ + assignment_json(
                            edge,
                            edge.assignment@.len() as int,
                            base,
                        ) + "],\"target_node\":\""@ + node_name(base + edge.target) + "\"}"@,
                    ),
                }
            },
        }
    }
}

/// The first `n` of a list of data positions.
pub open spec fn anchors_json(ids: Seq<NodeId>, n: int, base: int) -> Seq<char>
    decreases n,
{
    if n <= 0 {
        Seq::empty()
    } else {
        anchors_json(ids, n - 1, base) + comma(n - 1) + "\""@ + node_name(base + ids[n - 1])
            + "\""@
    }
}

/// A strand of the payload, or the first definition that it lacks: media
/// definitions first, then caps.
pub open spec fn strand_json(
    registry: FabricRegistry,
    strand: MachineStrand,
    first: int,
    base: int,
) -> Result<Seq<char>, Missing> {
    match nodes_json(registry, strand, strand.nodes@.len() as int, base) {
        Err(e) => Err(e),
        Ok(nodes) => match edges_json(registry, strand, strand.edges@.len() as int, first, base) {
            Err(e) => Err(e),
            Ok(edges) => Ok(
                "{\"nodes\":["@ + nodes + "],\"edges\":["@ + edges + "],\"input_anchor_nodes\":["@
                    + anchors_json(
                    strand.input_anchor_ids@,
                    strand.input_anchor_ids@.len() as int,
                    base,
                ) + "],\"output_anchor_nodes\":["@ + anchors_json(
                    strand.output_anchor_ids@,
                    strand.output_anchor_ids@.len() as int,
                    base,
                ) + "]}"@,
            ),
        },
    }
}

/// The first strands of the payload.
pub open spec fn strands_json(registry: FabricRegistry, strands: Seq<MachineStrand>) -> Result<
    Seq<char>,
    Missing,
>
    decreases strands.len(),
{
    if strands.len() == 0 {
        Ok(Seq::empty())
    } else {
        let rest = strands.drop_last();
        match strands_json(registry, rest) {
            Err(e) => Err(e),
            Ok(before) => match strand_json(
                registry,
                strands.last(),
                edge_count(rest) as int,
                node_count(rest) as int,
            ) {
                Err(e) => Err(e),
                Ok(s) => Ok(before + comma(rest.len() as int) + s),
            },
        }
    }
}

/// `e` names the definition that is lacking.
pub open spec fn names_missing(e: MachineAbstractionError, m: Missing) -> bool {
    match m {
        Missing::Media(urn) => e matches MachineAbstractionError::UncachedMediaDef { media_urn }
            && media_urn@ == urn,
        Missing::Cap(urn) => e matches MachineAbstractionError::UncachedCap { cap_urn }
            && cap_urn@ == urn,
    }
}

/// `r` is what the model says.
pub open spec fn same_outcome(
    r: Result<String, MachineAbstractionError>,
    want: Result<Seq<char>, Missing>,
) -> bool {
    match want {
        Ok(s) => r is Ok && r->Ok_0@ == s,
        Err(m) => r is Err && names_missing(r->Err_0, m),
    }
}

/// Nothing lacking before `n`, or lacking for good.
proof fn lemma_nodes_stuck(
    registry: FabricRegistry,
    strand: MachineStrand,
    n: int,
    m: int,
    base: int,
)
    requires
        n <= m,
        nodes_json(registry, strand, n, base) is Err,
    ensures
        nodes_json(registry, strand, m, base) == nodes_json(registry, strand, n, base),
    decreases m - n,
{
    if n < m {
        lemma_nodes_stuck(registry, strand, n, m - 1, base);
    }
}

proof fn lemma_edges_stuck(
    registry: FabricRegistry,
    strand: MachineStrand,
    n: int,
    m: int,
    first: int,
    base: int,
)
    requires
        n <= m,
        edges_json(registry, strand, n, first, base) is Err,
    ensures
        edges_json(registry, strand, m, first, base) == edges_json(
            registry,
            strand,
            n,
            first,
            base,
        ),
    decreases m - n,
{
    if n < m {
        lemma_edges_stuck(registry, strand, n, m - 1, first, base);
    }
}

proof fn lemma_strands_stuck(registry: FabricRegistry, strands: Seq<MachineStrand>, n: int)
    requires
        0 <= n <= strands.len(),
        strands_json(registry, strands.subrange(0, n)) is Err,
    ensures
        strands_json(registry, strands) == strands_json(registry, strands.subrange(0, n)),
    decreases strands.len() - n,
{
    if n == strands.len() {
        assert(strands.subrange(0, n) =~= strands);
    } else {
        assert(strands.subrange(0, n + 1).drop_last() =~= strands.subrange(0, n));
        lemma_strands_stuck(registry, strands, n + 1);
    }
}

/// Appends a comma, but not before the first item.
fn push_comma(json: &mut String, n: usize)
    ensures
        final(json)@ == old(json)@ + comma(n as int),
{
    if n > 0 {
        add_text(json, ",");
    } else {
        add_text(json, "");
    }
}

/// The data positions of a strand.
fn emit_nodes(
    registry: &FabricRegistry,
    strand: &MachineStrand,
    plan: &StrandPlan,
    base: Ghost<int>,
) -> (r: Result<String, MachineAbstractionError>)
    requires
        registry.wf(),
        plan.node_names@.len() == strand.nodes@.len(),
        forall|i: int|
            0 <= i < strand.nodes@.len() ==> (#[trigger] plan.node_names@[i])@ == node_name(
                base@ + i,
            ),
    ensures
        same_outcome(r, nodes_json(*registry, *strand, strand.nodes@.len() as int, base@)),
{
    let mut json = String::new();
    let mut i: usize = 0;
    while i < strand.nodes.len()
        invariant
            i <= strand.nodes@.len(),
            registry.wf(),
            plan.node_names@.len() == strand.nodes@.len(),
            forall|i: int|
                0 <= i < strand.nodes@.len() ==> (#[trigger] plan.node_names@[i])@ == node_name(
                    base@ + i,
                ),
            nodes_json(*registry, *strand, i as int, base@) == Ok::<Seq<char>, Missing>(json@),
        decreases strand.nodes@.len() - i,
    {
        let urn = strand.nodes[i].to_string();
        match registry.get_cached_media_def_in_memory(&urn) {
            Some(def) => {
                push_comma(&mut json, i);
                add_text(&mut json, "{\"id\":\"");
                add_text(&mut json, &plan.node_names[i]);
                add_text(&mut json, "\",\"urn\":\"");
                add_text(&mut json, &json_escape(&urn));
                add_text(&mut json, "\",\"title\":\"");
                add_text(&mut json, &json_escape(&def.title));
                add_text(&mut json, "\"}");
            },
            None => {
                proof {
                    lemma_nodes_stuck(
                        *registry,
                        *strand,
                        i + 1,
                        strand.nodes@.len() as int,
                        base@,
                    );
                }
                return Err(MachineAbstractionError::UncachedMediaDef { media_urn: urn });
            },
        }
        i = i + 1;
    }
    Ok(json)
}

/// The arguments of an edge.
fn emit_assignment(edge: &MachineEdge, node_names: &Vec<String>, base: Ghost<int>) -> (r: String)
    requires
        edge.wf(node_names@.len()),
        forall|i: int|
            0 <= i < node_names@.len() ==> (#[trigger] node_names@[i])@ == node_name(base@ + i),
    ensures
        r@ == assignment_json(*edge, edge.assignment@.len() as int, base@),
{
    let mut json = String::new();
    let mut i: usize = 0;
    while i < edge.assignment.len()
        invariant
            i <= edge.assignment@.len(),
            edge.wf(node_names@.len()),
            forall|i: int|
                0 <= i < node_names@.len() ==> (#[trigger] node_names@[i])@ == node_name(
                    base@ + i,
                ),
            json@ == assignment_json(*edge, i as int, base@),
        decreases edge.assignment@.len() - i,
    {
        push_comma(&mut json, i);
        add_text(&mut json, "{\"cap_arg_media_urn\":\"");
        add_text(&mut json, &json_escape(&edge.assignment[i].cap_arg_media_urn.to_string()));
        add_text(&mut json, "\",\"source_node\":\"");
        add_text(&mut json, &node_names[edge.assignment[i].source as usize]);
        add_text(&mut json, "\"}");
        i = i + 1;
    }
    json
}

/// The edges of a strand.
fn emit_edges(
    registry: &FabricRegistry,
    strand: &MachineStrand,
    plan: &StrandPlan,
    first: Ghost<int>,
    base: Ghost<int>,
) -> (r: Result<String, MachineAbstractionError>)
    requires
        registry.wf(),
        strand.wf(),
        planned(*plan, *strand, first@, base@, no_aliases()),
    ensures
        same_outcome(
            r,
            edges_json(*registry, *strand, strand.edges@.len() as int, first@, base@),
        ),
{
    let mut json = String::new();
    let mut i: usize = 0;
    while i < strand.edges.len()
        invariant
            i <= strand.edges@.len(),
            registry.wf(),
            strand.wf(),
            planned(*plan, *strand, first@, base@, no_aliases()),
            edges_json(*registry, *strand, i as int, first@, base@) == Ok::<Seq<char>, Missing>(
                json@,
            ),
        decreases strand.edges@.len() - i,
    {
        let edge = &strand.edges[i];
        let urn = edge.cap_urn.to_string();
        match registry.get_cached_cap_in_memory(&urn) {
            Some(cap) => {
                push_comma(&mut json, i);
                add_text(&mut json, "{\"alias\":\"");
                add_text(&mut json, &plan.edge_tokens[i]);
                add_text(&mut json, "\",\"cap_urn\":\"");
                add_text(&mut json, &json_escape(&urn));
                add_text(&mut json, "\",\"title\":\"");
                add_text(&mut json, &json_escape(&cap.title));
                add_text(&mut json, "\",\"is_loop\":");
                if edge.is_loop {
                    add_text(&mut json, "true");
                } else {
                    add_text(&mut json, "false");
                }
                add_text(&mut json, ",\"assignment\":[");
                add_text(&mut json, &emit_assignment(edge, &plan.node_names, base));
                add_text(&mut json, "],\"target_node\":\"");
                add_text(&mut json, &plan.node_names[edge.target as usize]);
                add_text(&mut json, "\"}");
            },
            None => {
                proof {
                    lemma_edges_stuck(
                        *registry,
                        *strand,
                        i + 1,
                        strand.edges@.len() as int,
                        first@,
                        base@,
                    );
                }
                return Err(MachineAbstractionError::UncachedCap { cap_urn: urn });
            },
        }
        i = i + 1;
    }
    Ok(json)
}

/// A list of data positions.
fn emit_anchors(ids: &Vec<NodeId>, node_names: &Vec<String>, base: Ghost<int>) -> (r: String)
    requires
        forall|i: int| 0 <= i < ids@.len() ==> #[trigger] ids@[i] < node_names@.len(),
        forall|i: int|
            0 <= i < node_names@.len() ==> (#[trigger] node_names@[i])@ == node_name(base@ + i),
    ensures
        r@ == anchors_json(ids@, ids@.len() as int, base@),
{
    let mut json = String::new();
    let mut i: usize = 0;
    while i < ids.len()
        invariant
            i <= ids@.len(),
            forall|i: int| 0 <= i < ids@.len() ==> #[trigger] ids@[i] < node_names@.len(),
            forall|i: int|
                0 <= i < node_names@.len() ==> (#[trigger] node_names@[i])@ == node_name(
                    base@ + i,
                ),
            json@ == anchors_json(ids@, i as int, base@),
        decreases ids@.len() - i,
    {
        push_comma(&mut json, i);
        add_text(&mut json, "\"");
        add_text(&mut json, &node_names[ids[i] as usize]);
        add_text(&mut json, "\"");
        i = i + 1;
    }
    json
}

/// A strand of the payload.
fn emit_strand_json(
    strand: &MachineStrand,
    plan: &StrandPlan,
    registry: &FabricRegistry,
    first: Ghost<int>,
    base: Ghost<int>,
) -> (r: Result<String, MachineAbstractionError>)
    requires
        registry.wf(),
        strand.wf(),
        planned(*plan, *strand, first@, base@, no_aliases()),
    ensures
        same_outcome(r, strand_json(*registry, *strand, first@, base@)),
{
    let nodes = match emit_nodes(registry, strand, plan, base) {
        Ok(s) => s,
        Err(e) => {
            return Err(e);
        },
    };
    let edges = match emit_edges(registry, strand, plan, first, base) {
        Ok(s) => s,
        Err(e) => {
            return Err(e);
        },
    };
    let mut json = owned("{\"nodes\":[");
    add_text(&mut json, &nodes);
    add_text(&mut json, "],\"edges\":[");
    add_text(&mut json, &edges);
    add_text(&mut json, "],\"input_anchor_nodes\":[");
    add_text(&mut json, &emit_anchors(&strand.input_anchor_ids, &plan.node_names, base));
    add_text(&mut json, "],\"output_anchor_nodes\":[");
    add_text(&mut json, &emit_anchors(&strand.output_anchor_ids, &plan.node_names, base));
    add_text(&mut json, "]}");
    Ok(json)
}

impl Machine {
    /// The payload that a graph renderer draws the machine from, with the
    /// titles of the cached definitions. A definition that is not cached is an
    /// error: the first one in the order of the strands.
    pub fn to_render_payload_json(&self, fabric_registry: &FabricRegistry) -> (r: Result<
        String,
        MachineAbstractionError,
    >)
        requires
            self.wf(),
            fabric_registry.wf(),
        ensures
            same_outcome(
                r,
                match strands_json(*fabric_registry, self.strands@) {
                    Ok(s) => Ok("{\"strands\":["@ + s + "]}"@),
                    Err(e) => Err(e),
                },
            ),
    {
        let plans = build_serialization_plan(self, CapRendering::CanonicalUrn);
        let ghost strands = self.strands@;
        let mut body = String::new();
        let mut i: usize = 0;
        assert(strands.subrange(0, 0) =~= Seq::<MachineStrand>::empty());
        while i < self.strands.len()
            invariant
                i <= self.strands@.len(),
                self.wf(),
                fabric_registry.wf(),
                strands == self.strands@,
                all_planned(plans@, strands, no_aliases()),
                strands_json(*fabric_registry, strands.subrange(0, i as int)) == Ok::<
                    Seq<char>,
                    Missing,
                >(body@),
            decreases strands.len() - i,
        {
            let ghost rest = strands.subrange(0, i as int);
            assert(strands.subrange(0, i + 1).drop_last() =~= rest);
            match emit_strand_json(
                &self.strands[i],
                &plans[i],
                fabric_registry,
                Ghost(edge_count(rest) as int),
                Ghost(node_count(rest) as int),
            ) {
                Ok(s) => {
                    push_comma(&mut body, i);
                    add_text(&mut body, &s);
                },
                Err(e) => {
                    proof {
                        lemma_strands_stuck(*fabric_registry, strands, i + 1);
                    }
                    return Err(e);
                },
            }
            i = i + 1;
        }
        assert(strands.subrange(0, strands.len() as int) =~= strands);
        let mut json = owned("{\"strands\":[");
        add_text(&mut json, &body);
        add_text(&mut json, "]}");
        Ok(json)
    }
}

// ---------------------------------------------------------------------------
// Laws
// ---------------------------------------------------------------------------

proof fn lemma_same_strand_statements(
    a: MachineStrand,
    b: MachineStrand,
    n: int,
    first: int,
    base: int,
    aliases: Aliases,
)
    requires
        a@ == b@,
        0 <= n <= a.edges@.len(),
    ensures
        a.edges@.len() == b.edges@.len(),
        a.nodes@.len() == b.nodes@.len(),
        strand_headers(a, n, first, aliases) == strand_headers(b, n, first, aliases),
        strand_wirings(a, n, first, base, aliases) == strand_wirings(b, n, first, base, aliases),
    decreases n,
{
    assert(a@.edges.len() == a.edges@.len() && b@.edges.len() == b.edges@.len());
    assert(a@.nodes.len() == a.nodes@.len() && b@.nodes.len() == b.nodes@.len());
    if n > 0 {
        lemma_same_strand_statements(a, b, n - 1, first, base, aliases);
        let x = a.edges@[n - 1];
        let y = b.edges@[n - 1];
        assert(a@.edges[n - 1] == x@ && b@.edges[n - 1] == y@);
        assert(x@.assignment.len() == x.assignment@.len() && y@.assignment.len()
            == y.assignment@.len());
        assert forall|i: int| 0 <= i < x.assignment@.len() implies x.assignment@[i].source
            == y.assignment@[i].source by {
            assert(x@.assignment[i].1 == x.assignment@[i].source);
            assert(y@.assignment[i].1 == y.assignment@[i].source);
        }
        assert(source_names(x, base) =~= source_names(y, base));
    }
}

proof fn lemma_same_statements(a: Seq<MachineStrand>, b: Seq<MachineStrand>, aliases: Aliases)
    requires
        a.len() == b.len(),
        forall|i: int| 0 <= i < a.len() ==> (#[trigger] a[i])@ == b[i]@,
    ensures
        edge_count(a) == edge_count(b),
        node_count(a) == node_count(b),
        headers(a, aliases) == headers(b, aliases),
        wirings(a, aliases) == wirings(b, aliases),
    decreases a.len(),
{
    if a.len() > 0 {
        assert forall|i: int| 0 <= i < a.drop_last().len() implies (
        #[trigger] a.drop_last()[i])@ == b.drop_last()[i]@ by {
            assert(a[i]@ == b[i]@);
        }
        lemma_same_statements(a.drop_last(), b.drop_last(), aliases);
        assert(a[a.len() - 1]@ == b[b.len() - 1]@);
        lemma_same_strand_statements(
            a.last(),
            b.last(),
            a.last().edges@.len() as int,
            edge_count(a.drop_last()) as int,
            node_count(a.drop_last()) as int,
            aliases,
        );
    }
}

/// Law: equivalent machines have the same notation, in every format and
/// whatever the aliases are.
pub proof fn law_equivalent_machines_have_one_notation(
    a: Machine,
    b: Machine,
    aliases: Aliases,
    format: NotationFormat,
)
    requires
        a@ == b@,
    ensures
        laid_out(statements(a.strands@, aliases), format) == laid_out(
            statements(b.strands@, aliases),
            format,
        ),
{
    assert(a@.len() == a.strands@.len() && b@.len() == b.strands@.len());
    assert forall|i: int| 0 <= i < a.strands@.len() implies (#[trigger] a.strands@[i])@
        == b.strands@[i]@ by {
        assert(a@[i] == a.strands@[i]@ && b@[i] == b.strands@[i]@);
    }
    lemma_same_statements(a.strands@, b.strands@, aliases);
}

proof fn lemma_wirings_len(strands: Seq<MachineStrand>, aliases: Aliases)
    ensures
        wirings(strands, aliases).len() == edge_count(strands),
    decreases strands.len(),
{
    if strands.len() > 0 {
        lemma_wirings_len(strands.drop_last(), aliases);
        lemma_strand_wirings_len(
            strands.last(),
            strands.last().edges@.len() as int,
            edge_count(strands.drop_last()) as int,
            node_count(strands.drop_last()) as int,
            aliases,
        );
    }
}

proof fn lemma_strand_wirings_len(
    strand: MachineStrand,
    n: int,
    first: int,
    base: int,
    aliases: Aliases,
)
    requires
        n >= 0,
    ensures
        strand_wirings(strand, n, first, base, aliases).len() == n,
    decreases n,
{
    if n > 0 {
        lemma_strand_wirings_len(strand, n - 1, first, base, aliases);
    }
}

proof fn lemma_headers_len(strands: Seq<MachineStrand>)
    ensures
        headers(strands, no_aliases()).len() == edge_count(strands),
    decreases strands.len(),
{
    if strands.len() > 0 {
        lemma_headers_len(strands.drop_last());
        lemma_strand_headers_len(
            strands.last(),
            strands.last().edges@.len() as int,
            edge_count(strands.drop_last()) as int,
        );
    }
}

proof fn lemma_strand_headers_len(strand: MachineStrand, n: int, first: int)
    requires
        n >= 0,
    ensures
        strand_headers(strand, n, first, no_aliases()).len() == n,
    decreases n,
{
    if n > 0 {
        lemma_strand_headers_len(strand, n - 1, first);
    }
}

/// Law: no edge is lost. The notation holds one wiring for each edge, and,
/// where no cap is named by an alias, one header for each edge.
pub proof fn law_every_edge_is_written(machine: Machine, aliases: Aliases)
    ensures
        wirings(machine.strands@, aliases).len() == edge_count(machine.strands@),
        headers(machine.strands@, no_aliases()).len() == edge_count(machine.strands@),
{
    lemma_wirings_len(machine.strands@, aliases);
    lemma_headers_len(machine.strands@);
}

/// Law: the machine without strands has the empty notation.
pub proof fn law_empty_machine_has_empty_notation(aliases: Aliases, format: NotationFormat)
    ensures
        laid_out(statements(Seq::empty(), aliases), format) == Seq::<char>::empty(),
{
    let ss = statements(Seq::empty(), aliases);
    assert(ss.len() == 0);
    assert(all_bracketed(ss).len() == 0);
}

/// Law: a cap with an alias is written by the alias; two caps without one are
/// told apart by their numbers.
pub proof fn law_cap_is_written_by_its_alias(
    edge: MachineEdge,
    other: MachineEdge,
    n: nat,
    m: nat,
    aliases: Aliases,
)
    ensures
        aliases(cap_text(edge.cap_urn@)) matches Some(alias) ==> edge_token(edge, n as int, aliases)
            == alias,
        n != m && aliases(cap_text(edge.cap_urn@)) is None && aliases(
            cap_text(other.cap_urn@),
        ) is None ==> edge_token(edge, n as int, aliases) != edge_token(other, m as int, aliases),
{
    if aliases(cap_text(edge.cap_urn@)) is None && aliases(cap_text(other.cap_urn@)) is None && n
        != m {
        let a = edge_token(edge, n as int, aliases);
        let b = edge_token(other, m as int, aliases);
        let k = "edge_"@.len() as int;
        assert(a.subrange(k, a.len() as int) =~= decimal(n));
        assert(b.subrange(k, b.len() as int) =~= decimal(m));
        if a == b {
            lemma_decimal_injective(n, m);
        }
    }
}

proof fn lemma_strand_without_headers(strand: MachineStrand, n: int, first: int, aliases: Aliases)
    requires
        n <= strand.edges@.len(),
        forall|i: int|
            0 <= i < strand.edges@.len() ==> aliases(
                cap_text((#[trigger] strand.edges@[i]).cap_urn@),
            ) is Some,
    ensures
        strand_headers(strand, n, first, aliases).len() == 0,
    decreases n,
{
    if n > 0 {
        lemma_strand_without_headers(strand, n - 1, first, aliases);
        assert(aliases(cap_text(strand.edges@[n - 1].cap_urn@)) is Some);
    }
}

/// Law: where every cap has an alias, the notation needs no headers.
pub proof fn law_aliases_need_no_headers(strands: Seq<MachineStrand>, aliases: Aliases)
    requires
        forall|s: int, i: int|
            0 <= s < strands.len() && 0 <= i < strands[s].edges@.len() ==> aliases(
                cap_text((#[trigger] strands[s].edges@[i]).cap_urn@),
            ) is Some,
    ensures
        headers(strands, aliases).len() == 0,
    decreases strands.len(),
{
    if strands.len() > 0 {
        let rest = strands.drop_last();
        let k = strands.len() - 1;
        assert forall|s: int, i: int|
            0 <= s < rest.len() && 0 <= i < rest[s].edges@.len() implies aliases(
            cap_text((#[trigger] rest[s].edges@[i]).cap_urn@),
        ) is Some by {
            assert(rest[s] == strands[s]);
            assert(aliases(cap_text(strands[s].edges@[i].cap_urn@)) is Some);
        }
        law_aliases_need_no_headers(rest, aliases);
        let last = strands.last();
        assert forall|i: int| 0 <= i < last.edges@.len() implies aliases(
            cap_text((#[trigger] last.edges@[i]).cap_urn@),
        ) is Some by {
            assert(aliases(cap_text(strands[k].edges@[i].cap_urn@)) is Some);
        }
        lemma_strand_without_headers(
            last,
            last.edges@.len() as int,
            edge_count(rest) as int,
            aliases,
        );
    }
}

} // verus!
