//! Resolved machines: strands of caps over numbered data positions.

use crate::urn::{CapUrn, MediaUrn, TagView};
use vstd::prelude::*;

verus! {

broadcast use vstd::string::group_string_axioms;

/// The number of a data position within a strand.
pub type NodeId = u32;

/// An argument of a cap and the data position that feeds it.
#[derive(Debug)]
pub struct EdgeAssignmentBinding {
    pub cap_arg_media_urn: MediaUrn,
    pub source: NodeId,
}

/// A cap between data positions.
#[derive(Debug)]
pub struct MachineEdge {
    pub cap_urn: CapUrn,
    /// The stable identity of the edge.
    pub token_id: String,
    /// The arguments in canonical order.
    pub assignment: Vec<EdgeAssignmentBinding>,
    pub target: NodeId,
    /// Whether the cap runs once for each item of a sequence.
    pub is_loop: bool,
}

/// A connected part of a machine, with its edges in canonical order.
#[derive(Debug)]
pub struct MachineStrand {
    /// The media of each data position.
    pub nodes: Vec<MediaUrn>,
    pub edges: Vec<MachineEdge>,
    /// The positions that data comes in at.
    pub input_anchor_ids: Vec<NodeId>,
    /// The positions that data leaves at.
    pub output_anchor_ids: Vec<NodeId>,
}

/// A resolved machine: its strands in order.
#[derive(Debug)]
pub struct Machine {
    pub strands: Vec<MachineStrand>,
}

impl MachineEdge {
    /// Every position that the edge names is one of `nodes` positions.
    pub open spec fn wf(&self, nodes: nat) -> bool {
        &&& self.target < nodes
        &&& forall|i: int|
            0 <= i < self.assignment@.len() ==> (#[trigger] self.assignment@[i]).source < nodes
    }
}

impl MachineStrand {
    /// Every position that the strand names is one of its own.
    pub open spec fn wf(&self) -> bool {
        let n = self.nodes@.len();
        &&& forall|i: int| 0 <= i < self.edges@.len() ==> (#[trigger] self.edges@[i]).wf(n)
        &&& forall|i: int|
            0 <= i < self.input_anchor_ids@.len() ==> #[trigger] self.input_anchor_ids@[i] < n
        &&& forall|i: int|
            0 <= i < self.output_anchor_ids@.len() ==> #[trigger] self.output_anchor_ids@[i] < n
    }
}

impl Machine {
    /// Every strand is well-formed.
    pub open spec fn wf(&self) -> bool {
        forall|i: int| 0 <= i < self.strands@.len() ==> (#[trigger] self.strands@[i]).wf()
    }

    /// The machine with these strands.
    pub fn from_resolved_strands(strands: Vec<MachineStrand>) -> (r: Self)
        requires
            forall|i: int| 0 <= i < strands@.len() ==> (#[trigger] strands@[i]).wf(),
        ensures
            r.wf(),
            r.strands == strands,
    {
        Machine { strands }
    }

    /// How many strands there are.
    pub fn strand_count(&self) -> (r: usize)
        ensures
            r == self.strands@.len(),
    {
        self.strands.len()
    }

    /// Whether there is no strand.
    pub fn is_empty(&self) -> (r: bool)
        ensures
            r == (self.strands@.len() == 0),
    {
        self.strands.len() == 0
    }
}

// ---------------------------------------------------------------------------
// Equivalence
// ---------------------------------------------------------------------------

/// An edge in the model: the cap, the fed arguments, the target and the loop.
/// The stable identity is not part of what a machine is.
pub ghost struct EdgeView {
    pub cap_urn: Seq<TagView>,
    pub assignment: Seq<(Seq<TagView>, NodeId)>,
    pub target: NodeId,
    pub is_loop: bool,
}

/// A strand in the model.
pub ghost struct StrandView {
    pub nodes: Seq<Seq<TagView>>,
    pub edges: Seq<EdgeView>,
    pub inputs: Seq<NodeId>,
    pub outputs: Seq<NodeId>,
}

impl View for MachineEdge {
    type V = EdgeView;

    open spec fn view(&self) -> EdgeView {
        EdgeView {
            cap_urn: self.cap_urn@,
            assignment: Seq::new(
                self.assignment@.len(),
                |i: int| (self.assignment@[i].cap_arg_media_urn@, self.assignment@[i].source),
            ),
            target: self.target,
            is_loop: self.is_loop,
        }
    }
}

impl View for MachineStrand {
    type V = StrandView;

    open spec fn view(&self) -> StrandView {
        StrandView {
            nodes: Seq::new(self.nodes@.len(), |i: int| self.nodes@[i]@),
            edges: Seq::new(self.edges@.len(), |i: int| self.edges@[i]@),
            inputs: self.input_anchor_ids@,
            outputs: self.output_anchor_ids@,
        }
    }
}

impl View for Machine {
    type V = Seq<StrandView>;

    open spec fn view(&self) -> Seq<StrandView> {
        Seq::new(self.strands@.len(), |i: int| self.strands@[i]@)
    }
}

fn same_ids(a: &Vec<NodeId>, b: &Vec<NodeId>) -> (r: bool)
    ensures
        r == (a@ == b@),
{
    if a.len() != b.len() {
        return false;
    }
    let mut i: usize = 0;
    while i < a.len()
        invariant
            i <= a@.len(),
            a@.len() == b@.len(),
            forall|j: int| 0 <= j < i ==> a@[j] == b@[j],
        decreases a@.len() - i,
    {
        if a[i] != b[i] {
            return false;
        }
        i = i + 1;
    }
    assert(a@ =~= b@);
    true
}

fn same_edge(a: &MachineEdge, b: &MachineEdge) -> (r: bool)
    ensures
        r == (a@ == b@),
{
    if a.target != b.target || a.is_loop != b.is_loop || a.assignment.len() != b.assignment.len()
        || !a.cap_urn.is_equivalent(&b.cap_urn) {
        assert(a@.assignment.len() == a.assignment@.len());
        assert(b@.assignment.len() == b.assignment@.len());
        return false;
    }
    let mut i: usize = 0;
    while i < a.assignment.len()
        invariant
            i <= a.assignment@.len(),
            a.assignment@.len() == b.assignment@.len(),
            forall|j: int| 0 <= j < i ==> #[trigger] a@.assignment[j] == b@.assignment[j],
        decreases a.assignment@.len() - i,
    {
        if a.assignment[i].source != b.assignment[i].source
            || !a.assignment[i].cap_arg_media_urn.is_equivalent(
            &b.assignment[i].cap_arg_media_urn,
        ) {
            assert(a@.assignment[i as int] != b@.assignment[i as int]);
            return false;
        }
        i = i + 1;
    }
    assert(a@.assignment =~= b@.assignment);
    true
}

fn same_strand(a: &MachineStrand, b: &MachineStrand) -> (r: bool)
    ensures
        r == (a@ == b@),
{
    if a.nodes.len() != b.nodes.len() || a.edges.len() != b.edges.len() || !same_ids(
        &a.input_anchor_ids,
        &b.input_anchor_ids,
    ) || !same_ids(&a.output_anchor_ids, &b.output_anchor_ids) {
        assert(a@.nodes.len() == a.nodes@.len() && b@.nodes.len() == b.nodes@.len());
        assert(a@.edges.len() == a.edges@.len() && b@.edges.len() == b.edges@.len());
        return false;
    }
    let mut i: usize = 0;
    while i < a.nodes.len()
        invariant
            i <= a.nodes@.len(),
            a.nodes@.len() == b.nodes@.len(),
            forall|j: int| 0 <= j < i ==> #[trigger] a@.nodes[j] == b@.nodes[j],
        decreases a.nodes@.len() - i,
    {
        if !a.nodes[i].is_equivalent(&b.nodes[i]) {
            assert(a@.nodes[i as int] != b@.nodes[i as int]);
            return false;
        }
        i = i + 1;
    }
    assert(a@.nodes =~= b@.nodes);
    let mut k: usize = 0;
    while k < a.edges.len()
        invariant
            k <= a.edges@.len(),
            a.edges@.len() == b.edges@.len(),
            forall|j: int| 0 <= j < k ==> #[trigger] a@.edges[j] == b@.edges[j],
        decreases a.edges@.len() - k,
    {
        if !same_edge(&a.edges[k], &b.edges[k]) {
            assert(a@.edges[k as int] != b@.edges[k as int]);
            return false;
        }
        k = k + 1;
    }
    assert(a@.edges =~= b@.edges);
    true
}

impl Machine {
    /// Whether the two machines have the same strands in the same order.
    pub fn is_equivalent(&self, other: &Machine) -> (r: bool)
        ensures
            r == (self@ == other@),
    {
        if self.strands.len() != other.strands.len() {
            assert(self@.len() == self.strands@.len() && other@.len() == other.strands@.len());
            return false;
        }
        let mut i: usize = 0;
        while i < self.strands.len()
            invariant
                i <= self.strands@.len(),
                self.strands@.len() == other.strands@.len(),
                forall|j: int| 0 <= j < i ==> #[trigger] self@[j] == other@[j],
            decreases self.strands@.len() - i,
        {
            if !same_strand(&self.strands[i], &other.strands[i]) {
                assert(self@[i as int] != other@[i as int]);
                return false;
            }
            i = i + 1;
        }
        assert(self@ =~= other@);
        true
    }
}

// ---------------------------------------------------------------------------
// Errors
// ---------------------------------------------------------------------------

/// What can go wrong between a machine and its other forms.
#[derive(Debug, PartialEq, Eq)]
pub enum MachineAbstractionError {
    /// The definition of a data position's media is not cached.
    UncachedMediaDef { media_urn: String },
    /// The definition of a cap is not cached.
    UncachedCap { cap_urn: String },
    /// A cap is fed by more or fewer than one data position.
    MultipleDataSources { strand_index: usize, cap_urn: String, source_count: usize },
    /// A cap cannot be reached from where the data comes in.
    DisconnectedStrand { strand_index: usize },
    /// A cap is not known.
    UnknownCap { cap_urn: String },
    /// What a cap gives for the media that it is fed cannot be told.
    RuntimeMediaInference {
        strand_index: usize,
        cap_urn: String,
        runtime_input: String,
        reason: String,
    },
}

} // verus!
