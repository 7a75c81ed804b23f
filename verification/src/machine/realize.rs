//! A resolved strand as a list of steps.
//!
//! The edges are taken in the order in which data reaches them. Each becomes a
//! step that runs its cap, behind a step that goes through a sequence item by
//! item where the resolver marked the edge as a loop. What a cap gives for the
//! media that it is fed is told by the caller's `infer`.

use crate::fabric::registry::{
    law_normalizing_is_idempotent, norm_cap, norm_media, normalize_cap_urn, normalize_media_urn, Cap,
    FabricRegistry,
};
use crate::machine::graph::{MachineAbstractionError, MachineEdge, MachineStrand, NodeId};
use crate::text::{add_text, decimal, decimal_text, has_text, opt_text, owned, texts};
use crate::urn::{cap_text, media_text, tags_score, CapUrn, MediaUrn, TagView};
use vstd::prelude::*;

verus! {

broadcast use vstd::string::group_string_axioms;

// ---------------------------------------------------------------------------
// Steps
// ---------------------------------------------------------------------------

/// What a step does.
#[derive(Debug)]
pub enum StrandStepType {
    /// Goes through a sequence item by item.
    ForEach { media_def: MediaUrn },
    /// Runs a cap.
    Cap {
        cap_urn: CapUrn,
        title: String,
        specificity: u128,
        input_is_sequence: bool,
        output_is_sequence: bool,
    },
}

/// A step between two media.
#[derive(Debug)]
pub struct StrandStep {
    pub step_type: StrandStepType,
    pub from_spec: MediaUrn,
    pub to_spec: MediaUrn,
    /// The identity of the edge that the step runs.
    pub token_id: Option<String>,
}

/// A list of steps from one media to another.
#[derive(Debug)]
pub struct Strand {
    pub steps: Vec<StrandStep>,
    pub source_media_urn: MediaUrn,
    pub target_media_urn: MediaUrn,
    pub total_steps: usize,
    /// How many of the steps run a cap.
    pub cap_step_count: usize,
    pub description: String,
}

/// What a step does, in the model.
pub ghost enum StepKind {
    ForEach { media: Seq<TagView> },
    Cap {
        cap_urn: Seq<TagView>,
        title: Seq<char>,
        specificity: nat,
        input_is_sequence: bool,
        output_is_sequence: bool,
    },
}

/// A step in the model.
pub ghost struct StepView {
    pub kind: StepKind,
    pub from: Seq<TagView>,
    pub to: Seq<TagView>,
    pub token_id: Option<Seq<char>>,
}

impl View for StrandStep {
    type V = StepView;

    open spec fn view(&self) -> StepView {
        StepView {
            kind: match self.step_type {
                StrandStepType::ForEach { media_def } => StepKind::ForEach { media: media_def@ },
                StrandStepType::Cap {
                    cap_urn,
                    title,
                    specificity,
                    input_is_sequence,
                    output_is_sequence,
                } => StepKind::Cap {
                    cap_urn: cap_urn@,
                    title: title@,
                    specificity: specificity as nat,
                    input_is_sequence,
                    output_is_sequence,
                },
            },
            from: self.from_spec@,
            to: self.to_spec@,
            token_id: opt_text(self.token_id),
        }
    }
}

/// The models of a list of steps.
pub open spec fn step_views(s: Seq<StrandStep>) -> Seq<StepView> {
    Seq::new(s.len(), |i: int| s[i]@)
}

// ---------------------------------------------------------------------------
// The order of the edges
// ---------------------------------------------------------------------------

/// Data is at position `node` once the edges of `order` have run.
pub open spec fn is_available(strand: MachineStrand, order: Seq<int>, node: NodeId) -> bool {
    strand.input_anchor_ids@.contains(node) || exists|k: int|
        0 <= k < order.len() && strand.edges@[#[trigger] order[k]].target == node
}

/// The edge has not run yet, and its data is there.
pub open spec fn is_ready(strand: MachineStrand, order: Seq<int>, i: int) -> bool {
    &&& !order.contains(i)
    &&& is_available(strand, order, strand.edges@[i].assignment@[0].source)
}

/// The first edge from `from` on that can run.
pub open spec fn first_ready(strand: MachineStrand, order: Seq<int>, from: int) -> Option<int>
    decreases strand.edges@.len() - from,
{
    if from >= strand.edges@.len() {
        None
    } else if is_ready(strand, order, from) {
        Some(from)
    } else {
        first_ready(strand, order, from + 1)
    }
}

/// All edges in the order in which they can run, the first `order` of which
/// have run; `None` where some edge never can.
pub open spec fn chain_from(strand: MachineStrand, order: Seq<int>) -> Option<Seq<int>>
    decreases strand.edges@.len() - order.len(),
{
    if order.len() >= strand.edges@.len() {
        Some(order)
    } else {
        match first_ready(strand, order, 0) {
            Some(i) => chain_from(strand, order.push(i)),
            None => None,
        }
    }
}

/// All edges in the order in which they can run; at each moment the first that
/// can.
pub open spec fn chain(strand: MachineStrand) -> Option<Seq<int>> {
    chain_from(strand, Seq::empty())
}

/// The edge at `i` is the first that is not fed by exactly one position.
pub open spec fn first_unfit(strand: MachineStrand, i: int) -> bool {
    &&& 0 <= i < strand.edges@.len()
    &&& strand.edges@[i].assignment@.len() != 1
    &&& forall|j: int|
        0 <= j < i ==> (#[trigger] strand.edges@[j]).assignment@.len() == 1
}

/// Every edge is fed by exactly one position.
pub open spec fn all_fit(strand: MachineStrand) -> bool {
    forall|j: int|
        0 <= j < strand.edges@.len() ==> (#[trigger] strand.edges@[j]).assignment@.len() == 1
}

fn contains_id(ids: &Vec<NodeId>, id: NodeId) -> (r: bool)
    ensures
        r == ids@.contains(id),
{
    let mut i: usize = 0;
    while i < ids.len()
        invariant
            i <= ids@.len(),
            forall|j: int| 0 <= j < i ==> ids@[j] != id,
        decreases ids@.len() - i,
    {
        if ids[i] == id {
            return true;
        }
        i = i + 1;
    }
    false
}

/// The places of the edges as integers.
pub open spec fn ints(v: Seq<usize>) -> Seq<int> {
    Seq::new(v.len(), |i: int| v[i] as int)
}

/// The edges in the order in which they can run.
pub fn order_edges(strand: &MachineStrand) -> (r: Option<Vec<usize>>)
    requires
        all_fit(*strand),
    ensures
        match chain(*strand) {
            Some(order) => r is Some && ints(r->0@) == order,
            None => r is None,
        },
{
    let mut order: Vec<usize> = Vec::new();
    let mut available: Vec<NodeId> = Vec::new();
    let mut emitted: Vec<bool> = Vec::new();
    let mut k: usize = 0;
    while k < strand.input_anchor_ids.len()
        invariant
            k <= strand.input_anchor_ids@.len(),
            available@ == strand.input_anchor_ids@.subrange(0, k as int),
        decreases strand.input_anchor_ids@.len() - k,
    {
        available.push(strand.input_anchor_ids[k]);
        k = k + 1;
    }
    assert(available@ =~= strand.input_anchor_ids@);
    let mut m: usize = 0;
    while m < strand.edges.len()
        invariant
            m <= strand.edges@.len(),
            emitted@.len() == m,
            forall|j: int| 0 <= j < m ==> !emitted@[j],
        decreases strand.edges@.len() - m,
    {
        emitted.push(false);
        m = m + 1;
    }
    assert(ints(order@) =~= Seq::<int>::empty());
    assert forall|node: NodeId| available@.contains(node) == is_available(
        *strand,
        ints(order@),
        node,
    ) by {
    }
    while order.len() < strand.edges.len()
        invariant
            all_fit(*strand),
            order@.len() <= strand.edges@.len(),
            emitted@.len() == strand.edges@.len(),
            forall|j: int|
                0 <= j < emitted@.len() ==> #[trigger] emitted@[j] == ints(order@).contains(j),
            forall|node: NodeId|
                #[trigger] available@.contains(node) == is_available(*strand, ints(order@), node),
            chain(*strand) == chain_from(*strand, ints(order@)),
        decreases strand.edges@.len() - order@.len(),
    {
        let mut i: usize = 0;
        let ghost done = ints(order@);
        while i < strand.edges.len() && (emitted[i] || !contains_id(
            &available,
            strand.edges[i].assignment[0].source,
        ))
            invariant
                i <= strand.edges@.len(),
                all_fit(*strand),
                emitted@.len() == strand.edges@.len(),
                forall|j: int|
                    0 <= j < emitted@.len() ==> #[trigger] emitted@[j] == done.contains(j),
                forall|node: NodeId|
                    #[trigger] available@.contains(node) == is_available(*strand, done, node),
                first_ready(*strand, done, 0) == first_ready(*strand, done, i as int),
            decreases strand.edges@.len() - i,
        {
            i = i + 1;
        }
        if i == strand.edges.len() {
            return None;
        }
        assert(is_ready(*strand, done, i as int));
        let ghost before = available@;
        let target: NodeId = strand.edges[i].target;
        available.push(target);
        emitted.set(i, true);
        order.push(i);
        proof {
            let now = ints(order@);
            assert(now =~= done.push(i as int));
            assert(now[done.len() as int] == i);
            assert forall|j: int| 0 <= j < emitted@.len() implies #[trigger] emitted@[j]
                == now.contains(j) by {
                if done.contains(j) {
                    let q = done.index_of(j);
                    assert(now[q] == j);
                }
                if now.contains(j) && j != i {
                    let q = now.index_of(j);
                    assert(done[q] == j);
                }
            }
            assert forall|node: NodeId| #[trigger] available@.contains(node) == is_available(
                *strand,
                now,
                node,
            ) by {
                if available@.contains(node) {
                    let q = available@.index_of(node);
                    if q < before.len() {
                        assert(before[q] == node);
                        assert(before.contains(node));
                        assert(is_available(*strand, done, node));
                        if !strand.input_anchor_ids@.contains(node) {
                            let w = choose|w: int|
                                0 <= w < done.len() && strand.edges@[#[trigger] done[w]].target
                                    == node;
                            assert(now[w] == done[w]);
                        }
                    }
                }
                if is_available(*strand, now, node) && !strand.input_anchor_ids@.contains(node) {
                    let w = choose|w: int|
                        0 <= w < now.len() && strand.edges@[#[trigger] now[w]].target == node;
                    if w < done.len() {
                        assert(done[w] == now[w]);
                        assert(is_available(*strand, done, node));
                        assert(before.contains(node));
                        let q = before.index_of(node);
                        assert(available@[q] == node);
                    } else {
                        assert(available@[available@.len() - 1] == node);
                    }
                }
                if strand.input_anchor_ids@.contains(node) {
                    assert(is_available(*strand, done, node));
                    assert(before.contains(node));
                    let q = before.index_of(node);
                    assert(available@[q] == node);
                }
            }
        }
    }
    Some(order)
}

// ---------------------------------------------------------------------------
// Realizing
// ---------------------------------------------------------------------------

/// The cached cap of an edge.
pub open spec fn edge_cap(registry: FabricRegistry, edge: MachineEdge) -> Option<Cap> {
    let urn = norm_cap(cap_text(edge.cap_urn@));
    if registry.cached_caps@.dom().contains(urn) {
        Some(registry.cached_caps@[urn])
    } else {
        None
    }
}

/// The caps of the edges that are not cached, each once, in the order of the
/// edges.
pub open spec fn missing_caps(registry: FabricRegistry, edges: Seq<MachineEdge>) -> Seq<Seq<char>>
    decreases edges.len(),
{
    if edges.len() == 0 {
        Seq::empty()
    } else {
        let before = missing_caps(registry, edges.drop_last());
        let urn = norm_cap(cap_text(edges.last().cap_urn@));
        if registry.cached_caps@.dom().contains(urn) || before.contains(urn) {
            before
        } else {
            before.push(urn)
        }
    }
}

/// The data types of a strand whose definitions are not cached, each once, in
/// the order of the data positions.
pub open spec fn missing_media(registry: FabricRegistry, nodes: Seq<MediaUrn>) -> Seq<Seq<char>>
    decreases nodes.len(),
{
    if nodes.len() == 0 {
        Seq::empty()
    } else {
        let before = missing_media(registry, nodes.drop_last());
        let urn = norm_media(media_text(nodes.last()@));
        if registry.cached_media_defs@.dom().contains(urn) || before.contains(urn) {
            before
        } else {
            before.push(urn)
        }
    }
}

/// The caps that are to be had in the cache before a strand is realized or
/// shown, and are not there.
pub fn caps_to_fetch(strand: &MachineStrand, registry: &FabricRegistry) -> (r: Vec<String>)
    requires
        registry.wf(),
    ensures
        texts(r@) == missing_caps(*registry, strand.edges@),
{
    let mut out: Vec<String> = Vec::new();
    let mut i: usize = 0;
    assert(strand.edges@.subrange(0, 0) =~= Seq::<MachineEdge>::empty());
    assert(texts(out@) =~= Seq::<Seq<char>>::empty());
    while i < strand.edges.len()
        invariant
            i <= strand.edges@.len(),
            registry.wf(),
            texts(out@) == missing_caps(*registry, strand.edges@.subrange(0, i as int)),
        decreases strand.edges@.len() - i,
    {
        let ghost upto = strand.edges@.subrange(0, i + 1);
        assert(upto.drop_last() =~= strand.edges@.subrange(0, i as int));
        assert(upto.last() == strand.edges@[i as int]);
        proof {
            law_normalizing_is_idempotent(cap_text(strand.edges@[i as int].cap_urn@));
        }
        let urn = normalize_cap_urn(&strand.edges[i].cap_urn.to_string());
        if registry.get_cached_cap_in_memory(&urn).is_none() && !has_text(&out, &urn) {
            let ghost before = texts(out@);
            let ghost added = urn@;
            out.push(urn);
            assert(texts(out@) =~= before.push(added));
        }
        i = i + 1;
    }
    assert(strand.edges@.subrange(0, strand.edges@.len() as int) =~= strand.edges@);
    out
}

/// The media definitions that are to be had in the cache before a strand is
/// shown, and are not there.
pub fn media_to_fetch(strand: &MachineStrand, registry: &FabricRegistry) -> (r: Vec<String>)
    requires
        registry.wf(),
    ensures
        texts(r@) == missing_media(*registry, strand.nodes@),
{
    let mut out: Vec<String> = Vec::new();
    let mut i: usize = 0;
    assert(strand.nodes@.subrange(0, 0) =~= Seq::<MediaUrn>::empty());
    assert(texts(out@) =~= Seq::<Seq<char>>::empty());
    while i < strand.nodes.len()
        invariant
            i <= strand.nodes@.len(),
            registry.wf(),
            texts(out@) == missing_media(*registry, strand.nodes@.subrange(0, i as int)),
        decreases strand.nodes@.len() - i,
    {
        let ghost upto = strand.nodes@.subrange(0, i + 1);
        assert(upto.drop_last() =~= strand.nodes@.subrange(0, i as int));
        assert(upto.last() == strand.nodes@[i as int]);
        proof {
            law_normalizing_is_idempotent(media_text(strand.nodes@[i as int]@));
        }
        let urn = normalize_media_urn(&strand.nodes[i].to_string());
        if registry.get_cached_media_def_in_memory(&urn).is_none() && !has_text(&out, &urn) {
            let ghost before = texts(out@);
            let ghost added = urn@;
            out.push(urn);
            assert(texts(out@) =~= before.push(added));
        }
        i = i + 1;
    }
    assert(strand.nodes@.subrange(0, strand.nodes@.len() as int) =~= strand.nodes@);
    out
}

proof fn lemma_missing_caps(registry: FabricRegistry, edges: Seq<MachineEdge>)
    ensures
        forall|i: int|
            0 <= i < edges.len() ==> {
                let urn = norm_cap(cap_text((#[trigger] edges[i]).cap_urn@));
                registry.cached_caps@.dom().contains(urn) || missing_caps(registry, edges).contains(
                    urn,
                )
            },
    decreases edges.len(),
{
    if edges.len() > 0 {
        let rest = edges.drop_last();
        lemma_missing_caps(registry, rest);
        let before = missing_caps(registry, rest);
        let all = missing_caps(registry, edges);
        let last = norm_cap(cap_text(edges.last().cap_urn@));
        assert forall|u: Seq<char>| before.contains(u) implies #[trigger] all.contains(u) by {
            let k = before.index_of(u);
            assert(all[k] == u);
        }
        if !registry.cached_caps@.dom().contains(last) && !before.contains(last) {
            assert(all[all.len() - 1] == last);
        }
        assert forall|i: int| 0 <= i < edges.len() implies ({
            let urn = norm_cap(cap_text((#[trigger] edges[i]).cap_urn@));
            registry.cached_caps@.dom().contains(urn) || all.contains(urn)
        }) by {
            if i < rest.len() {
                assert(rest[i] == edges[i]);
            }
        }
    }
}

/// Law: where nothing is left to fetch for a strand, the cap of every edge is
/// known.
pub proof fn law_nothing_to_fetch_means_known(registry: FabricRegistry, strand: MachineStrand, i: int)
    requires
        missing_caps(registry, strand.edges@).len() == 0,
        0 <= i < strand.edges@.len(),
    ensures
        edge_cap(registry, strand.edges@[i]) is Some,
{
    lemma_missing_caps(registry, strand.edges@);
    let urn = norm_cap(cap_text(strand.edges@[i].cap_urn@));
    assert(!missing_caps(registry, strand.edges@).contains(urn));
}

/// The steps of the first `k` edges of `order`; the `j`-th of them takes
/// `media[j]` and gives `media[j + 1]`.
pub open spec fn steps_of(
    strand: MachineStrand,
    registry: FabricRegistry,
    order: Seq<int>,
    media: Seq<MediaUrn>,
    k: int,
) -> Seq<StepView>
    decreases k,
{
    if k <= 0 {
        Seq::empty()
    } else {
        let before = steps_of(strand, registry, order, media, k - 1);
        let edge = strand.edges@[order[k - 1]];
        let cap = edge_cap(registry, edge)->0;
        let entered = if edge.is_loop {
            before.push(
                StepView {
                    kind: StepKind::ForEach { media: media[k - 1]@ },
                    from: media[k - 1]@,
                    to: media[k - 1]@,
                    token_id: None,
                },
            )
        } else {
            before
        };
        entered.push(
            StepView {
                kind: StepKind::Cap {
                    cap_urn: edge.cap_urn@,
                    title: cap.title@,
                    specificity: tags_score(edge.cap_urn@),
                    input_is_sequence: cap.input_is_sequence,
                    output_is_sequence: cap.output_is_sequence,
                },
                from: media[k - 1]@,
                to: media[k]@,
                token_id: Some(edge.token_id@),
            },
        )
    }
}

/// The first edges of `order` ran: the caps are known, and each gave what
/// `infer` says for the media that it was fed.
pub open spec fn ran<F: Fn(&CapUrn, &MediaUrn) -> Result<MediaUrn, String>>(
    strand: MachineStrand,
    registry: FabricRegistry,
    infer: F,
    order: Seq<int>,
    source: Seq<TagView>,
    media: Seq<MediaUrn>,
) -> bool {
    &&& 1 <= media.len() <= order.len() + 1
    &&& media[0]@ == source
    &&& forall|k: int|
        0 <= k < media.len() - 1 ==> edge_cap(registry, strand.edges@[#[trigger] order[k]]) is Some
            && infer.ensures(
            (&strand.edges@[order[k]].cap_urn, &media[k]),
            Ok::<MediaUrn, String>(media[k + 1]),
        )
}

/// `r` is what comes out where the edges of `order` ran as far as `media`
/// reaches: all of them, or up to a cap that is not known, or up to one for
/// which `infer` fails.
pub open spec fn came_out<F: Fn(&CapUrn, &MediaUrn) -> Result<MediaUrn, String>>(
    strand: MachineStrand,
    registry: FabricRegistry,
    infer: F,
    order: Seq<int>,
    source: Seq<TagView>,
    strand_index: usize,
    media: Seq<MediaUrn>,
    r: Result<Strand, MachineAbstractionError>,
) -> bool {
    let k = media.len() - 1;
    let edge = strand.edges@[order[k]];
    match r {
        Ok(s) => {
            &&& k == order.len()
            &&& step_views(s.steps@) == steps_of(strand, registry, order, media, k)
            &&& s.source_media_urn@ == source
            &&& s.target_media_urn@ == media[k]@
            &&& s.total_steps == s.steps@.len()
            &&& s.cap_step_count == order.len()
            &&& s.description@ == "realized machine strand "@ + decimal(strand_index as nat)
        },
        Err(MachineAbstractionError::UnknownCap { cap_urn }) => {
            &&& k < order.len()
            &&& edge_cap(registry, edge) is None
            &&& cap_urn@ == cap_text(edge.cap_urn@)
        },
        Err(
            MachineAbstractionError::RuntimeMediaInference {
                strand_index: at,
                cap_urn,
                runtime_input,
                reason,
            },
        ) => {
            &&& k < order.len()
            &&& edge_cap(registry, edge) is Some
            &&& at == strand_index
            &&& cap_urn@ == cap_text(edge.cap_urn@)
            &&& runtime_input@ == media_text(media[k]@)
            &&& infer.ensures((&edge.cap_urn, &media[k]), Err::<MediaUrn, String>(reason))
        },
        Err(_) => false,
    }
}

/// The steps of a strand that is fed `source_urn`. An edge that is not fed by
/// exactly one position, and a strand in which some edge is never reached, are
/// errors.
pub fn realize_strand<F: Fn(&CapUrn, &MediaUrn) -> Result<MediaUrn, String>>(
    machine_strand: &MachineStrand,
    registry: &FabricRegistry,
    source_urn: &MediaUrn,
    strand_index: usize,
    infer: F,
) -> (r: Result<Strand, MachineAbstractionError>)
    requires
        registry.wf(),
        forall|c: &CapUrn, m: &MediaUrn| infer.requires((c, m)),
    ensures
        !all_fit(*machine_strand) ==> exists|i: int|
            {
                &&& #[trigger] first_unfit(*machine_strand, i)
                &&& r matches Err(
                    MachineAbstractionError::MultipleDataSources {
                        strand_index: at,
                        cap_urn,
                        source_count,
                    },
                )
                &&& at == strand_index
                &&& cap_urn@ == cap_text(machine_strand.edges@[i].cap_urn@)
                &&& source_count == machine_strand.edges@[i].assignment@.len()
            },
        all_fit(*machine_strand) && chain(*machine_strand) is None ==> r == Err::<
            Strand,
            MachineAbstractionError,
        >(MachineAbstractionError::DisconnectedStrand { strand_index }),
        all_fit(*machine_strand) && chain(*machine_strand) is Some ==> exists|
            media: Seq<MediaUrn>,
        |
            #[trigger] ran(
                *machine_strand,
                *registry,
                infer,
                chain(*machine_strand)->0,
                source_urn@,
                media,
            ) && came_out(
                *machine_strand,
                *registry,
                infer,
                chain(*machine_strand)->0,
                source_urn@,
                strand_index,
                media,
                r,
            ),
{
    let mut n: usize = 0;
    while n < machine_strand.edges.len()
        invariant
            n <= machine_strand.edges@.len(),
            forall|j: int|
                0 <= j < n ==> (#[trigger] machine_strand.edges@[j]).assignment@.len() == 1,
        decreases machine_strand.edges@.len() - n,
    {
        let edge = &machine_strand.edges[n];
        if edge.assignment.len() != 1 {
            assert(first_unfit(*machine_strand, n as int));
            assert(!all_fit(*machine_strand));
            return Err(
                MachineAbstractionError::MultipleDataSources {
                    strand_index,
                    cap_urn: edge.cap_urn.to_string(),
                    source_count: edge.assignment.len(),
                },
            );
        }
        n = n + 1;
    }
    let order = match order_edges(machine_strand) {
        Some(order) => order,
        None => {
            return Err(MachineAbstractionError::DisconnectedStrand { strand_index });
        },
    };
    let ghost ord = ints(order@);
    proof {
        lemma_chain(*machine_strand, Seq::empty());
    }
    let mut steps: Vec<StrandStep> = Vec::new();
    let mut current = source_urn.copied();
    let ghost mut media: Seq<MediaUrn> = seq![current];
    let mut cap_step_count: usize = 0;
    let mut i: usize = 0;
    assert(step_views(steps@) =~= Seq::<StepView>::empty());
    while i < order.len()
        invariant
            i <= order@.len(),
            registry.wf(),
            forall|c: &CapUrn, m: &MediaUrn| infer.requires((c, m)),
            all_fit(*machine_strand),
            chain(*machine_strand) == Some(ord),
            ord == ints(order@),
            ord.len() == machine_strand.edges@.len(),
            forall|j: int|
                0 <= j < ord.len() ==> 0 <= #[trigger] ord[j] < machine_strand.edges@.len(),
            cap_step_count == i,
            media.len() == i + 1,
            media[i as int] == current,
            ran(*machine_strand, *registry, infer, ord, source_urn@, media),
            step_views(steps@) == steps_of(*machine_strand, *registry, ord, media, i as int),
        decreases order@.len() - i,
    {
        assert(ord[i as int] == order@[i as int]);
        let edge = &machine_strand.edges[order[i]];
        let ghost before = media;
        let urn = edge.cap_urn.to_string();
        let cap = match registry.get_cached_cap_in_memory(&urn) {
            Some(cap) => cap,
            None => {
                assert(ran(
                    *machine_strand,
                    *registry,
                    infer,
                    chain(*machine_strand)->0,
                    source_urn@,
                    media,
                ));
                return Err(MachineAbstractionError::UnknownCap { cap_urn: urn });
            },
        };
        let (input_is_sequence, output_is_sequence) = cap.sequence_shape();
        let ghost start = step_views(steps@);
        if edge.is_loop {
            let step = StrandStep {
                step_type: StrandStepType::ForEach { media_def: current.copied() },
                from_spec: current.copied(),
                to_spec: current.copied(),
                token_id: None,
            };
            let ghost sv = step@;
            steps.push(step);
            assert(step_views(steps@) =~= start.push(sv));
        }
        let ghost entered = step_views(steps@);
        let runtime_out = match infer(&edge.cap_urn, &current) {
            Ok(m) => m,
            Err(reason) => {
                assert(ran(
                    *machine_strand,
                    *registry,
                    infer,
                    chain(*machine_strand)->0,
                    source_urn@,
                    media,
                ));
                return Err(
                    MachineAbstractionError::RuntimeMediaInference {
                        strand_index,
                        cap_urn: urn,
                        runtime_input: current.to_string(),
                        reason,
                    },
                );
            },
        };
        let step = StrandStep {
            step_type: StrandStepType::Cap {
                cap_urn: edge.cap_urn.copied(),
                title: cap.title.clone(),
                specificity: edge.cap_urn.specificity(),
                input_is_sequence,
                output_is_sequence,
            },
            from_spec: current.copied(),
            to_spec: runtime_out.copied(),
            token_id: Some(edge.token_id.clone()),
        };
        let ghost sv = step@;
        steps.push(step);
        proof {
            assert(step_views(steps@) =~= entered.push(sv));
            media = before.push(runtime_out);
            lemma_steps_of(*machine_strand, *registry, ord, before, runtime_out, i as int);
            assert forall|k: int| 0 <= k < media.len() - 1 implies edge_cap(
                *registry,
                machine_strand.edges@[#[trigger] ord[k]],
            ) is Some && infer.ensures(
                (&machine_strand.edges@[ord[k]].cap_urn, &media[k]),
                Ok::<MediaUrn, String>(media[k + 1]),
            ) by {
                if k < before.len() - 1 {
                    assert(media[k] == before[k] && media[k + 1] == before[k + 1]);
                }
            }
        }
        current = runtime_out;
        cap_step_count = cap_step_count + 1;
        i = i + 1;
    }
    let mut description = owned("realized machine strand ");
    add_text(&mut description, &decimal_text(strand_index as u64));
    let total_steps: usize = steps.len();
    Ok(
        Strand {
            steps,
            source_media_urn: source_urn.copied(),
            target_media_urn: current,
            total_steps,
            cap_step_count,
            description,
        },
    )
}

/// One more media at the end leaves the steps before it as they are.
proof fn lemma_steps_of(
    strand: MachineStrand,
    registry: FabricRegistry,
    order: Seq<int>,
    media: Seq<MediaUrn>,
    next: MediaUrn,
    k: int,
)
    requires
        0 <= k < media.len(),
    ensures
        steps_of(strand, registry, order, media.push(next), k) == steps_of(
            strand,
            registry,
            order,
            media,
            k,
        ),
    decreases k,
{
    if k > 0 {
        lemma_steps_of(strand, registry, order, media, next, k - 1);
    }
}

proof fn lemma_first_ready(strand: MachineStrand, order: Seq<int>, from: int)
    requires
        0 <= from,
    ensures
        match first_ready(strand, order, from) {
            Some(i) => from <= i < strand.edges@.len() && is_ready(strand, order, i) && forall|
                j: int,
            |
                from <= j < i ==> !#[trigger] is_ready(strand, order, j),
            None => forall|j: int|
                from <= j < strand.edges@.len() ==> !#[trigger] is_ready(strand, order, j),
        },
    decreases strand.edges@.len() - from,
{
    if from < strand.edges@.len() && !is_ready(strand, order, from) {
        lemma_first_ready(strand, order, from + 1);
    }
}

/// A list in which every edge can run where it stands.
pub open spec fn runs_in_order(strand: MachineStrand, order: Seq<int>) -> bool {
    &&& order.no_duplicates()
    &&& forall|k: int|
        0 <= k < order.len() ==> 0 <= #[trigger] order[k] < strand.edges@.len() && is_available(
            strand,
            order.subrange(0, k),
            strand.edges@[order[k]].assignment@[0].source,
        )
}

proof fn lemma_chain(strand: MachineStrand, order: Seq<int>)
    requires
        runs_in_order(strand, order),
        order.len() <= strand.edges@.len(),
    ensures
        chain_from(strand, order) is Some ==> runs_in_order(strand, chain_from(strand, order)->0)
            && chain_from(strand, order)->0.len() == strand.edges@.len(),
    decreases strand.edges@.len() - order.len(),
{
    if order.len() < strand.edges@.len() {
        lemma_first_ready(strand, order, 0);
        if let Some(i) = first_ready(strand, order, 0) {
            let next = order.push(i);
            assert forall|k: int| 0 <= k < next.len() implies 0 <= #[trigger] next[k]
                < strand.edges@.len() && is_available(
                strand,
                next.subrange(0, k),
                strand.edges@[next[k]].assignment@[0].source,
            ) by {
                assert(next.subrange(0, k) =~= order.subrange(0, k));
                if k == order.len() {
                    assert(order.subrange(0, k) =~= order);
                }
            }
            lemma_chain(strand, next);
        }
    }
}

/// Law: where a strand can be ordered, every edge stands in the order once, and
/// each behind the edges that bring its data.
pub proof fn law_edges_run_after_their_data(strand: MachineStrand)
    requires
        chain(strand) is Some,
    ensures
        chain(strand)->0.len() == strand.edges@.len(),
        runs_in_order(strand, chain(strand)->0),
{
    lemma_chain(strand, Seq::empty());
}

/// How many of the edges loop.
pub open spec fn loops(edges: Seq<MachineEdge>) -> nat
    decreases edges.len(),
{
    if edges.len() == 0 {
        0
    } else {
        loops(edges.drop_last()) + (if edges.last().is_loop {
            1nat
        } else {
            0
        })
    }
}

/// The edges as they stand in an order.
pub open spec fn in_order(strand: MachineStrand, order: Seq<int>) -> Seq<MachineEdge> {
    Seq::new(order.len(), |k: int| strand.edges@[order[k]])
}

/// The places whose edges loop.
spec fn looping(places: Seq<int>, edges: Seq<MachineEdge>) -> Seq<int> {
    places.filter(|i: int| edges[i].is_loop)
}

proof fn lemma_loops_filter(edges: Seq<MachineEdge>, places: Seq<int>)
    requires
        forall|k: int| 0 <= k < places.len() ==> 0 <= #[trigger] places[k] < edges.len(),
    ensures
        loops(Seq::new(places.len(), |k: int| edges[places[k]])) == looping(places, edges).len(),
    decreases places.len(),
{
    reveal(Seq::filter);
    let taken = Seq::new(places.len(), |k: int| edges[places[k]]);
    if places.len() > 0 {
        let rest = places.drop_last();
        assert forall|k: int| 0 <= k < rest.len() implies 0 <= #[trigger] rest[k] < edges.len() by {
            assert(rest[k] == places[k]);
        }
        lemma_loops_filter(edges, rest);
        assert(taken.drop_last() =~= Seq::new(rest.len(), |k: int| edges[rest[k]]));
        assert(taken.last() == edges[places.last()]);
    }
}

proof fn lemma_filter_members(places: Seq<int>, edges: Seq<MachineEdge>)
    requires
        places.no_duplicates(),
    ensures
        looping(places, edges).no_duplicates(),
        forall|x: int|
            #[trigger] looping(places, edges).contains(x) <==> places.contains(x)
                && edges[x].is_loop,
    decreases places.len(),
{
    reveal(Seq::filter);
    let kept = looping(places, edges);
    if places.len() > 0 {
        let rest = places.drop_last();
        assert forall|i: int, j: int| 0 <= i < rest.len() && 0 <= j < rest.len() && i
            != j implies rest[i] != rest[j] by {
            assert(rest[i] == places[i] && rest[j] == places[j]);
        }
        lemma_filter_members(rest, edges);
        let before = looping(rest, edges);
        let last = places.last();
        if rest.contains(last) {
            let q = rest.index_of(last);
            assert(places[q] == places[places.len() - 1]);
        }
        assert(!before.contains(last));
        assert forall|i: int, j: int| 0 <= i < kept.len() && 0 <= j < kept.len() && i
            != j implies kept[i] != kept[j] by {
            if i < before.len() {
                assert(before[i] == kept[i]);
                assert(before.contains(kept[i]));
            }
            if j < before.len() {
                assert(before[j] == kept[j]);
                assert(before.contains(kept[j]));
            }
        }
        assert forall|x: int| #[trigger] kept.contains(x) <==> places.contains(x)
            && edges[x].is_loop by {
            if kept.contains(x) {
                let q = kept.index_of(x);
                if q < before.len() {
                    assert(before[q] == x);
                    assert(before.contains(x));
                    let w = rest.index_of(x);
                    assert(places[w] == x);
                } else {
                    assert(places[places.len() - 1] == x);
                }
            }
            if places.contains(x) && edges[x].is_loop {
                let q = places.index_of(x);
                if q < rest.len() {
                    assert(rest[q] == x);
                    assert(before.contains(x));
                    let w = before.index_of(x);
                    assert(kept[w] == x);
                } else {
                    assert(kept[kept.len() - 1] == x);
                }
            }
        }
    }
}

/// The order has as many loops as the strand.
proof fn lemma_loops_in_order(strand: MachineStrand, order: Seq<int>)
    requires
        order.no_duplicates(),
        order.len() == strand.edges@.len(),
        forall|k: int| 0 <= k < order.len() ==> 0 <= #[trigger] order[k] < strand.edges@.len(),
    ensures
        loops(in_order(strand, order)) == loops(strand.edges@),
{
    let edges = strand.edges@;
    let all = Seq::new(edges.len(), |i: int| i);
    lemma_loops_filter(edges, order);
    lemma_loops_filter(edges, all);
    assert(in_order(strand, order) =~= Seq::new(order.len(), |k: int| edges[order[k]]));
    assert(Seq::new(all.len(), |k: int| edges[all[k]]) =~= edges);
    lemma_filter_members(order, edges);
    lemma_filter_members(all, edges);
    order.unique_seq_to_set();
    all.unique_seq_to_set();
    assert(order.to_set().subset_of(all.to_set())) by {
        assert forall|x: int| order.to_set().contains(x) implies all.to_set().contains(x) by {
            let q = order.index_of(x);
            assert(all[order[q]] == x);
        }
    }
    vstd::set_lib::lemma_subset_equality(order.to_set(), all.to_set());
    let a = looping(order, edges);
    let b = looping(all, edges);
    a.unique_seq_to_set();
    b.unique_seq_to_set();
    assert forall|x: int| order.contains(x) == all.contains(x) by {
        assert(order.to_set().contains(x) == all.to_set().contains(x));
    }
    assert(a.to_set() =~= b.to_set()) by {
        assert forall|x: int| a.to_set().contains(x) == b.to_set().contains(x) by {
            assert(a.contains(x) == b.contains(x));
        }
    }
}

/// The place of the step that runs the `j`-th edge: behind the steps of the
/// edges before it, and behind one step more for each loop up to its own.
pub open spec fn cap_place(strand: MachineStrand, order: Seq<int>, j: int) -> int {
    j + loops(in_order(strand, order).subrange(0, j + 1))
}

proof fn lemma_steps(
    strand: MachineStrand,
    registry: FabricRegistry,
    order: Seq<int>,
    media: Seq<MediaUrn>,
    k: int,
)
    requires
        0 <= k <= order.len(),
        media.len() == order.len() + 1,
        forall|j: int|
            0 <= j < order.len() ==> edge_cap(registry, strand.edges@[#[trigger] order[j]]) is Some,
    ensures
        ({
            let steps = steps_of(strand, registry, order, media, k);
            &&& steps.len() == k + loops(in_order(strand, order).subrange(0, k))
            &&& forall|j: int|
                0 <= j < k ==> {
                    let edge = strand.edges@[#[trigger] order[j]];
                    let at = cap_place(strand, order, j);
                    &&& 0 <= at < steps.len()
                    &&& runs_edge(steps[at], registry, edge, media[j]@, media[j + 1]@)
                    &&& edge.is_loop ==> at > 0 && steps[at - 1] == goes_through(media[j]@)
                }
        }),
    decreases k,
{
    let all = in_order(strand, order);
    let steps = steps_of(strand, registry, order, media, k);
    if k > 0 {
        lemma_steps(strand, registry, order, media, k - 1);
        let before = steps_of(strand, registry, order, media, k - 1);
        assert(all.subrange(0, k).drop_last() =~= all.subrange(0, k - 1));
        assert(all.subrange(0, k).last() == strand.edges@[order[k - 1]]);
        assert forall|j: int| 0 <= j < k implies ({
            let edge = strand.edges@[#[trigger] order[j]];
            let at = cap_place(strand, order, j);
            &&& 0 <= at < steps.len()
            &&& runs_edge(steps[at], registry, edge, media[j]@, media[j + 1]@)
            &&& edge.is_loop ==> at > 0 && steps[at - 1] == goes_through(media[j]@)
        }) by {
            let at = cap_place(strand, order, j);
            if j < k - 1 {
                assert(before[at] == steps[at]);
                if strand.edges@[order[j]].is_loop {
                    assert(before[at - 1] == steps[at - 1]);
                }
            } else {
                assert(at == steps.len() - 1);
            }
        }
    } else {
        assert(all.subrange(0, 0) =~= Seq::<MachineEdge>::empty());
    }
}

/// The step goes through a sequence of `media` item by item.
pub open spec fn goes_through(media: Seq<TagView>) -> StepView {
    StepView { kind: StepKind::ForEach { media }, from: media, to: media, token_id: None }
}

/// The step runs the cap of this edge on `from`, which gives `to`.
pub open spec fn runs_edge(
    step: StepView,
    registry: FabricRegistry,
    edge: MachineEdge,
    from: Seq<TagView>,
    to: Seq<TagView>,
) -> bool {
    let cap = registry.cached_caps@[norm_cap(cap_text(edge.cap_urn@))];
    &&& step.from == from
    &&& step.to == to
    &&& step.token_id == Some(edge.token_id@)
    &&& step.kind matches StepKind::Cap {
        cap_urn,
        title,
        specificity,
        input_is_sequence,
        output_is_sequence,
    }
    &&& cap_urn == edge.cap_urn@
    &&& title == cap.title@
    &&& specificity == tags_score(edge.cap_urn@)
    &&& input_is_sequence == cap.input_is_sequence
    &&& output_is_sequence == cap.output_is_sequence
}

/// Law: a realized strand has one step for each edge and one more for each edge
/// that loops. The step of an edge stands where the edges before it leave off
/// and runs its cap on the media that flows in; right before the step of an edge
/// that loops, and nowhere else, a step goes through that media item by item.
/// The media flow from the source through each edge, as `infer` tells, to the
/// target.
pub proof fn law_realized_steps<F: Fn(&CapUrn, &MediaUrn) -> Result<MediaUrn, String>>(
    strand: MachineStrand,
    registry: FabricRegistry,
    infer: F,
    order: Seq<int>,
    source: Seq<TagView>,
    strand_index: usize,
    media: Seq<MediaUrn>,
    realized: Strand,
)
    requires
        chain(strand) == Some(order),
        ran(strand, registry, infer, order, source, media),
        came_out(
            strand,
            registry,
            infer,
            order,
            source,
            strand_index,
            media,
            Ok::<Strand, MachineAbstractionError>(realized),
        ),
    ensures
        realized.total_steps == realized.steps@.len(),
        realized.total_steps == strand.edges@.len() + loops(strand.edges@),
        realized.cap_step_count == strand.edges@.len(),
        order.len() == strand.edges@.len(),
        order.no_duplicates(),
        media.len() == order.len() + 1,
        realized.source_media_urn@ == source,
        media[0]@ == source,
        realized.target_media_urn@ == media.last()@,
        forall|j: int|
            0 <= j < order.len() ==> {
                let edge = strand.edges@[#[trigger] order[j]];
                let at = cap_place(strand, order, j);
                &&& 0 <= order[j] < strand.edges@.len()
                &&& 0 <= at < realized.steps@.len()
                &&& runs_edge(realized.steps@[at]@, registry, edge, media[j]@, media[j + 1]@)
                &&& edge.is_loop ==> at > 0 && realized.steps@[at - 1]@ == goes_through(media[j]@)
                &&& infer.ensures(
                    (&edge.cap_urn, &media[j]),
                    Ok::<MediaUrn, String>(media[j + 1]),
                )
            },
{
    let k = media.len() - 1;
    lemma_chain(strand, Seq::empty());
    lemma_steps(strand, registry, order, media, k);
    lemma_loops_in_order(strand, order);
    assert(in_order(strand, order).subrange(0, order.len() as int) =~= in_order(strand, order));
    let views = step_views(realized.steps@);
    assert(views.len() == realized.steps@.len());
    assert forall|j: int| 0 <= j < order.len() implies ({
        let edge = strand.edges@[#[trigger] order[j]];
        let at = cap_place(strand, order, j);
        &&& 0 <= order[j] < strand.edges@.len()
        &&& 0 <= at < realized.steps@.len()
        &&& runs_edge(realized.steps@[at]@, registry, edge, media[j]@, media[j + 1]@)
        &&& edge.is_loop ==> at > 0 && realized.steps@[at - 1]@ == goes_through(media[j]@)
        &&& infer.ensures((&edge.cap_urn, &media[j]), Ok::<MediaUrn, String>(media[j + 1]))
    }) by {
        let at = cap_place(strand, order, j);
        assert(views[at] == realized.steps@[at]@);
        if strand.edges@[order[j]].is_loop {
            assert(views[at - 1] == realized.steps@[at - 1]@);
        }
    }
}

/// Data is at the position: it comes in there, or an edge before the `k`-th
/// leads there.
pub open spec fn fed_before(strand: MachineStrand, order: Seq<int>, k: int, node: NodeId) -> bool {
    ||| exists|a: int|
        0 <= a < strand.input_anchor_ids@.len() && #[trigger] strand.input_anchor_ids@[a] == node
    ||| exists|m: int| 0 <= m < k && strand.edges@[#[trigger] order[m]].target == node
}

proof fn lemma_fed(strand: MachineStrand, order: Seq<int>, k: int, node: NodeId)
    requires
        0 <= k <= order.len(),
    ensures
        is_available(strand, order.subrange(0, k), node) == fed_before(strand, order, k, node),
{
    let front = order.subrange(0, k);
    if is_available(strand, front, node) && !strand.input_anchor_ids@.contains(node) {
        let m = choose|m: int|
            0 <= m < front.len() && strand.edges@[#[trigger] front[m]].target == node;
        assert(order[m] == front[m]);
    }
    if fed_before(strand, order, k, node) && !strand.input_anchor_ids@.contains(node) {
        let m = choose|m: int| 0 <= m < k && strand.edges@[#[trigger] order[m]].target == node;
        assert(front[m] == order[m]);
    }
}

/// The greedy choice: at each place stands the first edge that could.
proof fn lemma_chain_takes_first(strand: MachineStrand, order: Seq<int>)
    requires
        chain_from(strand, order) is Some,
        order.len() <= strand.edges@.len(),
    ensures
        ({
            let full = chain_from(strand, order)->0;
            &&& full.len() >= order.len()
            &&& full.subrange(0, order.len() as int) == order
            &&& forall|k: int|
                order.len() <= k < full.len() ==> #[trigger] takes_first(strand, full, k)
        }),
    decreases strand.edges@.len() - order.len(),
{
    if order.len() < strand.edges@.len() {
        lemma_first_ready(strand, order, 0);
        let i = first_ready(strand, order, 0)->0;
        let next = order.push(i);
        lemma_chain_takes_first(strand, next);
        let full = chain_from(strand, order)->0;
        assert(full.subrange(0, order.len() as int) =~= order) by {
            assert forall|k: int| 0 <= k < order.len() implies full[k] == order[k] by {
                assert(full.subrange(0, next.len() as int)[k] == next[k]);
            }
        }
        assert(full[order.len() as int] == i) by {
            assert(full.subrange(0, next.len() as int)[order.len() as int] == i);
        }
        assert(takes_first(strand, full, order.len() as int));
    } else {
        assert(order.subrange(0, order.len() as int) =~= order);
    }
}

spec fn takes_first(strand: MachineStrand, order: Seq<int>, k: int) -> bool {
    forall|j: int|
        0 <= j < order[k] ==> !#[trigger] is_ready(strand, order.subrange(0, k), j)
}

/// Law: in the order of a strand every edge stands once, behind the edges that
/// bring its data; and at each place stands the first edge that could.
pub proof fn law_order_follows_the_data(strand: MachineStrand, k: int)
    requires
        chain(strand) is Some,
        0 <= k < strand.edges@.len(),
    ensures
        ({
            let order = chain(strand)->0;
            &&& order.len() == strand.edges@.len()
            &&& order.no_duplicates()
            &&& 0 <= order[k] < strand.edges@.len()
            &&& fed_before(strand, order, k, strand.edges@[order[k]].assignment@[0].source)
            &&& forall|j: int|
                0 <= j < order[k] ==> order.subrange(0, k).contains(j) || !fed_before(
                    strand,
                    order,
                    k,
                    (#[trigger] strand.edges@[j]).assignment@[0].source,
                )
        }),
{
    let order = chain(strand)->0;
    lemma_chain(strand, Seq::empty());
    lemma_chain_takes_first(strand, Seq::empty());
    assert(takes_first(strand, order, k));
    lemma_fed(strand, order, k, strand.edges@[order[k]].assignment@[0].source);
    assert(is_available(
        strand,
        order.subrange(0, k),
        strand.edges@[order[k]].assignment@[0].source,
    ));
    assert forall|j: int| 0 <= j < order[k] implies order.subrange(0, k).contains(j) || !fed_before(
        strand,
        order,
        k,
        (#[trigger] strand.edges@[j]).assignment@[0].source,
    ) by {
        lemma_fed(strand, order, k, strand.edges@[j].assignment@[0].source);
        assert(!is_ready(strand, order.subrange(0, k), j));
    }
}

/// Where there is an order of all edges, the greedy choice is never stuck.
proof fn lemma_chain_goes_on(strand: MachineStrand, order: Seq<int>, other: Seq<int>)
    requires
        runs_in_order(strand, order),
        order.len() <= strand.edges@.len(),
        other.len() == strand.edges@.len(),
        other.no_duplicates(),
        forall|k: int|
            0 <= k < other.len() ==> 0 <= #[trigger] other[k] < strand.edges@.len() && fed_before(
                strand,
                other,
                k,
                strand.edges@[other[k]].assignment@[0].source,
            ),
    ensures
        chain_from(strand, order) is Some,
    decreases strand.edges@.len() - order.len(),
{
    if order.len() < strand.edges@.len() {
        lemma_first_ready(strand, order, 0);
        match first_ready(strand, order, 0) {
            Some(i) => {
                let next = order.push(i);
                assert forall|k: int| 0 <= k < next.len() implies 0 <= #[trigger] next[k]
                    < strand.edges@.len() && is_available(
                    strand,
                    next.subrange(0, k),
                    strand.edges@[next[k]].assignment@[0].source,
                ) by {
                    assert(next.subrange(0, k) =~= order.subrange(0, k));
                    if k == order.len() {
                        assert(order.subrange(0, k) =~= order);
                    }
                }
                lemma_chain_goes_on(strand, next, other);
            },
            None => {
                lemma_all_in(strand, order, other, other.len() as int);
                other.unique_seq_to_set();
                order.unique_seq_to_set();
                assert(other.to_set().subset_of(order.to_set())) by {
                    assert forall|x: int| other.to_set().contains(x) implies order.to_set().contains(
                        x,
                    ) by {
                        let q = other.index_of(x);
                        assert(order.contains(other[q]));
                    }
                }
                vstd::set_lib::lemma_len_subset(other.to_set(), order.to_set());
            },
        }
    }
}

proof fn lemma_all_in(strand: MachineStrand, order: Seq<int>, other: Seq<int>, n: int)
    requires
        0 <= n <= other.len(),
        forall|j: int| 0 <= j < strand.edges@.len() ==> !#[trigger] is_ready(strand, order, j),
        forall|k: int|
            0 <= k < other.len() ==> 0 <= #[trigger] other[k] < strand.edges@.len() && fed_before(
                strand,
                other,
                k,
                strand.edges@[other[k]].assignment@[0].source,
            ),
    ensures
        forall|k: int| 0 <= k < n ==> order.contains(#[trigger] other[k]),
    decreases n,
{
    if n > 0 {
        lemma_all_in(strand, order, other, n - 1);
        let e = other[n - 1];
        let node = strand.edges@[e].assignment@[0].source;
        assert(!is_ready(strand, order, e));
        assert(fed_before(strand, other, n - 1, node));
        if !strand.input_anchor_ids@.contains(node) {
            let m = choose|m: int|
                0 <= m < n - 1 && strand.edges@[#[trigger] other[m]].target == node;
            assert(order.contains(other[m]));
            let q = order.index_of(other[m]);
            assert(strand.edges@[order[q]].target == node);
        }
        assert(is_available(strand, order, node));
    }
}

/// Law: a strand that can be ordered in some way is ordered.
pub proof fn law_what_can_be_ordered_is(strand: MachineStrand, other: Seq<int>)
    requires
        other.len() == strand.edges@.len(),
        other.no_duplicates(),
        forall|k: int|
            0 <= k < other.len() ==> 0 <= #[trigger] other[k] < strand.edges@.len() && fed_before(
                strand,
                other,
                k,
                strand.edges@[other[k]].assignment@[0].source,
            ),
    ensures
        chain(strand) is Some,
{
    lemma_chain_goes_on(strand, Seq::empty(), other);
}

/// Law: a strand in which every edge is fed by one position, whose caps are
/// known and for which `infer` never fails, is realized.
pub proof fn law_known_strand_is_realized<
    F: Fn(&CapUrn, &MediaUrn) -> Result<MediaUrn, String>,
>(
    strand: MachineStrand,
    registry: FabricRegistry,
    infer: F,
    order: Seq<int>,
    source: Seq<TagView>,
    strand_index: usize,
    media: Seq<MediaUrn>,
    r: Result<Strand, MachineAbstractionError>,
)
    requires
        chain(strand) == Some(order),
        ran(strand, registry, infer, order, source, media),
        came_out(strand, registry, infer, order, source, strand_index, media, r),
        forall|i: int|
            0 <= i < strand.edges@.len() ==> registry.cached_caps@.dom().contains(
                norm_cap(cap_text((#[trigger] strand.edges@[i]).cap_urn@)),
            ),
        forall|c: &CapUrn, m: &MediaUrn, e: String|
            !infer.ensures((c, m), Err::<MediaUrn, String>(e)),
    ensures
        r is Ok,
{
    lemma_chain(strand, Seq::empty());
    let k = media.len() - 1;
    if k < order.len() {
        assert(0 <= order[k] < strand.edges@.len());
        assert(edge_cap(registry, strand.edges@[order[k]]) is Some);
    }
}

proof fn lemma_missing_caps_are(registry: FabricRegistry, edges: Seq<MachineEdge>)
    ensures
        missing_caps(registry, edges).no_duplicates(),
        forall|k: int|
            0 <= k < missing_caps(registry, edges).len() ==> {
                let urn = #[trigger] missing_caps(registry, edges)[k];
                &&& !registry.cached_caps@.dom().contains(urn)
                &&& exists|i: int|
                    0 <= i < edges.len() && urn == norm_cap(cap_text((#[trigger] edges[i]).cap_urn@))
            },
    decreases edges.len(),
{
    if edges.len() > 0 {
        let rest = edges.drop_last();
        lemma_missing_caps_are(registry, rest);
        let before = missing_caps(registry, rest);
        let all = missing_caps(registry, edges);
        assert forall|k: int| 0 <= k < all.len() implies ({
            let urn = #[trigger] all[k];
            &&& !registry.cached_caps@.dom().contains(urn)
            &&& exists|i: int|
                0 <= i < edges.len() && urn == norm_cap(cap_text((#[trigger] edges[i]).cap_urn@))
        }) by {
            if k < before.len() {
                assert(all[k] == before[k]);
                let i = choose|i: int|
                    0 <= i < rest.len() && before[k] == norm_cap(
                        cap_text((#[trigger] rest[i]).cap_urn@),
                    );
                assert(edges[i] == rest[i]);
            } else {
                assert(edges[edges.len() - 1] == edges.last());
            }
        }
        assert forall|i: int, j: int| 0 <= i < all.len() && 0 <= j < all.len() && i
            != j implies all[i] != all[j] by {
            if i < before.len() {
                assert(before.contains(before[i]));
            }
            if j < before.len() {
                assert(before.contains(before[j]));
            }
        }
    }
}

/// Law: what is to be fetched for the edges of a strand is the canonical URN of
/// each cap that is not cached, once, and nothing else.
pub proof fn law_fetched_caps_are_the_missing(
    registry: FabricRegistry,
    edges: Seq<MachineEdge>,
    urn: Seq<char>,
)
    ensures
        missing_caps(registry, edges).no_duplicates(),
        missing_caps(registry, edges).contains(urn) <==> {
            &&& !registry.cached_caps@.dom().contains(urn)
            &&& exists|i: int|
                0 <= i < edges.len() && urn == norm_cap(cap_text((#[trigger] edges[i]).cap_urn@))
        },
{
    lemma_missing_caps(registry, edges);
    lemma_missing_caps_are(registry, edges);
    let all = missing_caps(registry, edges);
    if all.contains(urn) {
        let k = all.index_of(urn);
        assert(all[k] == urn);
    }
}

proof fn lemma_missing_media(registry: FabricRegistry, nodes: Seq<MediaUrn>, urn: Seq<char>)
    ensures
        missing_media(registry, nodes).no_duplicates(),
        missing_media(registry, nodes).contains(urn) <==> {
            &&& !registry.cached_media_defs@.dom().contains(urn)
            &&& exists|i: int|
                0 <= i < nodes.len() && urn == norm_media(media_text((#[trigger] nodes[i])@))
        },
    decreases nodes.len(),
{
    if nodes.len() > 0 {
        let rest = nodes.drop_last();
        lemma_missing_media(registry, rest, urn);
        let before = missing_media(registry, rest);
        let all = missing_media(registry, nodes);
        let last = norm_media(media_text(nodes.last()@));
        lemma_missing_media(registry, rest, last);
        assert(nodes[nodes.len() - 1] == nodes.last());
        if before.contains(urn) {
            let k = before.index_of(urn);
            assert(all[k] == urn);
            let i = choose|i: int|
                0 <= i < rest.len() && urn == norm_media(media_text((#[trigger] rest[i])@));
            assert(nodes[i] == rest[i]);
        }
        if all.contains(urn) {
            let k = all.index_of(urn);
            if k < before.len() {
                assert(before[k] == urn);
            }
        }
        if all.len() > before.len() {
            assert(all[all.len() - 1] == last);
        }
        if exists|i: int| 0 <= i < nodes.len() && urn == norm_media(media_text((#[trigger] nodes[i])@)) {
            let i = choose|i: int|
                0 <= i < nodes.len() && urn == norm_media(media_text((#[trigger] nodes[i])@));
            if i < rest.len() {
                assert(rest[i] == nodes[i]);
            }
        }
        assert forall|i: int, j: int| 0 <= i < all.len() && 0 <= j < all.len() && i
            != j implies all[i] != all[j] by {
            if i < before.len() {
                assert(before.contains(before[i]));
            }
            if j < before.len() {
                assert(before.contains(before[j]));
            }
        }
    }
}

/// Law: what is to be fetched for the data positions of a strand is the
/// canonical URN of each media that is not cached, once, and nothing else.
pub proof fn law_fetched_media_are_the_missing(
    registry: FabricRegistry,
    nodes: Seq<MediaUrn>,
    urn: Seq<char>,
)
    ensures
        missing_media(registry, nodes).no_duplicates(),
        missing_media(registry, nodes).contains(urn) <==> {
            &&& !registry.cached_media_defs@.dom().contains(urn)
            &&& exists|i: int|
                0 <= i < nodes.len() && urn == norm_media(media_text((#[trigger] nodes[i])@))
        },
{
    lemma_missing_media(registry, nodes, urn);
}

/// Law: a strand that is not realized tells where it failed: by a cap of one of
/// its edges that is not known; or by the cap of one for which nothing could be
/// inferred, with the media that reached it and the reason. One that is realized
/// is described by its number.
pub proof fn law_failed_strand_tells_where<
    F: Fn(&CapUrn, &MediaUrn) -> Result<MediaUrn, String>,
>(
    strand: MachineStrand,
    registry: FabricRegistry,
    infer: F,
    order: Seq<int>,
    source: Seq<TagView>,
    strand_index: usize,
    media: Seq<MediaUrn>,
    r: Result<Strand, MachineAbstractionError>,
)
    requires
        chain(strand) == Some(order),
        ran(strand, registry, infer, order, source, media),
        came_out(strand, registry, infer, order, source, strand_index, media, r),
    ensures
        r matches Err(e) ==> e is UnknownCap || e is RuntimeMediaInference,
        r matches Err(MachineAbstractionError::UnknownCap { cap_urn }) ==> exists|i: int|
            {
                &&& 0 <= i < strand.edges@.len()
                &&& cap_urn@ == cap_text((#[trigger] strand.edges@[i]).cap_urn@)
                &&& !registry.cached_caps@.dom().contains(
                    norm_cap(cap_text(strand.edges@[i].cap_urn@)),
                )
            },
        r matches Err(
            MachineAbstractionError::RuntimeMediaInference {
                strand_index: at,
                cap_urn,
                runtime_input,
                reason,
            },
        ) ==> at == strand_index && runtime_input@ == media_text(media.last()@) && exists|i: int|
            {
                &&& 0 <= i < strand.edges@.len()
                &&& cap_urn@ == cap_text((#[trigger] strand.edges@[i]).cap_urn@)
                &&& registry.cached_caps@.dom().contains(
                    norm_cap(cap_text(strand.edges@[i].cap_urn@)),
                )
                &&& infer.ensures(
                    (&strand.edges@[i].cap_urn, &media.last()),
                    Err::<MediaUrn, String>(reason),
                )
            },
        r matches Ok(s) ==> s.description@ == "realized machine strand "@ + decimal(
            strand_index as nat,
        ),
{
    lemma_chain(strand, Seq::empty());
    let k = media.len() - 1;
    if k < order.len() {
        assert(0 <= order[k] < strand.edges@.len());
        assert(media.last() == media[k]);
    }
}

} // verus!
