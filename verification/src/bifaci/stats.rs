//! Counters for frames that were dropped and for the benign frames that arrive
//! after their request ended, and the bounded memory of ended flows.

use crate::bifaci::frame::{DropReason, FlowKey, FrameType, DROP_REASONS, FRAME_TYPES};
use crate::text::{owned, same_text};
use vstd::prelude::*;

verus! {

broadcast use vstd::string::group_string_axioms;

// ---------------------------------------------------------------------------
// Sums and name tables
// ---------------------------------------------------------------------------

/// The sum of a list of counts.
pub open spec fn sum(s: Seq<u64>) -> nat
    decreases s.len(),
{
    if s.len() == 0 {
        0
    } else {
        sum(s.drop_last()) + s.last() as nat
    }
}

/// Adding one to one count adds one to the sum.
proof fn lemma_sum_update(s: Seq<u64>, i: int, v: u64)
    requires
        0 <= i < s.len(),
    ensures
        sum(s.update(i, v)) == sum(s) - s[i] + v,
    decreases s.len(),
{
    if i == s.len() - 1 {
        assert(s.update(i, v).drop_last() =~= s.drop_last());
    } else {
        assert(s.update(i, v).drop_last() =~= s.drop_last().update(i, v));
        lemma_sum_update(s.drop_last(), i, v);
    }
}

/// The sum of two lists is the sum of both.
proof fn lemma_sum_append(a: Seq<u64>, b: Seq<u64>)
    ensures
        sum(a + b) == sum(a) + sum(b),
    decreases b.len(),
{
    if b.len() == 0 {
        assert(a + b =~= a);
    } else {
        assert((a + b).drop_last() =~= a + b.drop_last());
        lemma_sum_append(a, b.drop_last());
    }
}

/// A part of a list sums to no more than the list, and each count is no more
/// than the sum.
proof fn lemma_sum_part(s: Seq<u64>, from: int, to: int)
    requires
        0 <= from <= to <= s.len(),
    ensures
        sum(s.subrange(from, to)) <= sum(s),
{
    assert(s =~= s.subrange(0, from) + s.subrange(from, to) + s.subrange(to, s.len() as int));
    lemma_sum_append(s.subrange(0, from) + s.subrange(from, to), s.subrange(to, s.len() as int));
    lemma_sum_append(s.subrange(0, from), s.subrange(from, to));
}

/// The sum of `cells[from..to]`.
fn sum_between(cells: &Vec<u64>, from: usize, to: usize) -> (r: u64)
    requires
        from <= to <= cells@.len(),
        sum(cells@) <= u64::MAX,
    ensures
        r == sum(cells@.subrange(from as int, to as int)),
{
    let mut total: u64 = 0;
    let mut i: usize = from;
    while i < to
        invariant
            from <= i <= to <= cells@.len(),
            sum(cells@) <= u64::MAX,
            total == sum(cells@.subrange(from as int, i as int)),
        decreases to - i,
    {
        assert(cells@.subrange(from as int, i + 1).drop_last() =~= cells@.subrange(
            from as int,
            i as int,
        ));
        proof {
            lemma_sum_part(cells@, from as int, i + 1);
        }
        total = total + cells[i];
        i = i + 1;
    }
    total
}

/// Counts by name, in the order of the names.
#[derive(Debug, PartialEq, Eq, Default)]
pub struct CountMap {
    pub entries: Vec<(String, u64)>,
}

/// The first count under a name.
pub open spec fn count_of(s: Seq<(Seq<char>, u64)>, name: Seq<char>) -> Option<u64>
    decreases s.len(),
{
    if s.len() == 0 {
        None
    } else if s[0].0 == name {
        Some(s[0].1)
    } else {
        count_of(s.drop_first(), name)
    }
}

impl View for CountMap {
    type V = Seq<(Seq<char>, u64)>;

    open spec fn view(&self) -> Seq<(Seq<char>, u64)> {
        Seq::new(self.entries@.len(), |i: int| (self.entries@[i].0@, self.entries@[i].1))
    }
}

impl CountMap {
    /// No counts.
    pub fn new() -> (r: CountMap)
        ensures
            r@ == Seq::<(Seq<char>, u64)>::empty(),
    {
        let r = CountMap { entries: Vec::new() };
        assert(r@ =~= Seq::<(Seq<char>, u64)>::empty());
        r
    }

    /// Adds a count behind the others.
    pub fn push(&mut self, name: &str, count: u64)
        ensures
            final(self)@ == old(self)@.push((name@, count)),
    {
        let ghost before = self@;
        self.entries.push((owned(name), count));
        assert(self@ =~= before.push((name@, count)));
    }

    /// The count under a name.
    pub fn get(&self, name: &str) -> (r: Option<&u64>)
        ensures
            match r {
                Some(n) => count_of(self@, name@) == Some(*n),
                None => count_of(self@, name@) is None,
            },
    {
        let mut i: usize = 0;
        assert(self@.subrange(0, self@.len() as int) =~= self@);
        while i < self.entries.len()
            invariant
                i <= self.entries@.len(),
                count_of(self@, name@) == count_of(
                    self@.subrange(i as int, self@.len() as int),
                    name@,
                ),
            decreases self.entries@.len() - i,
        {
            assert(self@.subrange(i as int, self@.len() as int).drop_first() =~= self@.subrange(
                i + 1,
                self@.len() as int,
            ));
            if same_text(&self.entries[i].0, name) {
                return Some(&self.entries[i].1);
            }
            i = i + 1;
        }
        None
    }

    /// Whether there is a count under a name.
    pub fn contains_key(&self, name: &str) -> (r: bool)
        ensures
            r == (count_of(self@, name@) is Some),
    {
        self.get(name).is_some()
    }
}

/// Tables of counts by name, in the order of the names.
#[derive(Debug, PartialEq, Eq, Default)]
pub struct CountTable {
    pub entries: Vec<(String, CountMap)>,
}

impl View for CountTable {
    type V = Seq<(Seq<char>, Seq<(Seq<char>, u64)>)>;

    open spec fn view(&self) -> Seq<(Seq<char>, Seq<(Seq<char>, u64)>)> {
        Seq::new(self.entries@.len(), |i: int| (self.entries@[i].0@, self.entries@[i].1@))
    }
}

impl CountTable {
    /// No tables.
    pub fn new() -> (r: CountTable)
        ensures
            r@ == Seq::<(Seq<char>, Seq<(Seq<char>, u64)>)>::empty(),
    {
        let r = CountTable { entries: Vec::new() };
        assert(r@ =~= Seq::<(Seq<char>, Seq<(Seq<char>, u64)>)>::empty());
        r
    }

    /// Adds a table behind the others.
    pub fn push(&mut self, name: &str, counts: CountMap)
        ensures
            final(self)@ == old(self)@.push((name@, counts@)),
    {
        let ghost before = self@;
        let ghost added = counts@;
        self.entries.push((owned(name), counts));
        assert(self@ =~= before.push((name@, added)));
    }

    /// The first table under a name.
    pub fn get(&self, name: &str) -> (r: Option<&CountMap>)
        ensures
            match r {
                Some(m) => exists|i: int|
                    0 <= i < self@.len() && (#[trigger] self@[i]) == (name@, m@) && forall|j: int|
                        0 <= j < i ==> (#[trigger] self@[j]).0 != name@,
                None => forall|j: int| 0 <= j < self@.len() ==> (#[trigger] self@[j]).0 != name@,
            },
    {
        let mut i: usize = 0;
        while i < self.entries.len()
            invariant
                i <= self.entries@.len(),
                forall|j: int| 0 <= j < i ==> (#[trigger] self@[j]).0 != name@,
            decreases self.entries@.len() - i,
        {
            if same_text(&self.entries[i].0, name) {
                assert(self@[i as int] == (name@, self.entries@[i as int].1@));
                return Some(&self.entries[i].1);
            }
            i = i + 1;
        }
        None
    }
}

/// The counts that are not zero, each under the name of its place.
pub open spec fn nonzero(counts: Seq<u64>, names: spec_fn(int) -> Seq<char>) -> Seq<
    (Seq<char>, u64),
>
    decreases counts.len(),
{
    if counts.len() == 0 {
        Seq::empty()
    } else {
        let before = nonzero(counts.drop_last(), names);
        if counts.last() > 0 {
            before.push((names(counts.len() - 1), counts.last()))
        } else {
            before
        }
    }
}

/// The names of the frame types by place.
pub open spec fn frame_names() -> spec_fn(int) -> Seq<char> {
    |i: int| FrameType::nth(i).name()
}

/// The names of the drop reasons by place.
pub open spec fn reason_names() -> spec_fn(int) -> Seq<char> {
    |i: int| DropReason::nth(i).name()
}

// ---------------------------------------------------------------------------
// Dropped frames
// ---------------------------------------------------------------------------

/// Counts of dropped frames, one for each reason and frame type.
#[derive(Debug)]
pub struct DropCounters {
    /// The counts of the first reason, then those of the second, and so on.
    pub cells: Vec<u64>,
}

impl DropCounters {
    /// There is a count for each pair, and all of them together fit a counter.
    pub open spec fn wf(&self) -> bool {
        self.cells@.len() == DROP_REASONS * FRAME_TYPES && sum(self.cells@) <= u64::MAX
    }

    /// The counts of one reason by frame type.
    pub open spec fn row(&self, reason: int) -> Seq<u64> {
        self.cells@.subrange(FRAME_TYPES * reason, FRAME_TYPES * reason + FRAME_TYPES)
    }

    /// The count of one reason.
    pub open spec fn of_reason(&self, reason: DropReason) -> nat {
        sum(self.row(reason.place()))
    }

    /// The count of one reason and frame type.
    pub open spec fn cell(&self, reason: DropReason, frame_type: FrameType) -> u64 {
        self.cells@[FRAME_TYPES * reason.place() + frame_type.place()]
    }

    /// The counts by reason.
    pub open spec fn by_reason(&self) -> Seq<u64> {
        Seq::new(DROP_REASONS as nat, |i: int| sum(self.row(i)) as u64)
    }

    /// The counts that are not zero by frame type, for each of the first `n`
    /// reasons that has any.
    pub open spec fn breakdown(&self, n: int) -> Seq<(Seq<char>, Seq<(Seq<char>, u64)>)>
        decreases n,
    {
        if n <= 0 {
            Seq::empty()
        } else {
            let before = self.breakdown(n - 1);
            if sum(self.row(n - 1)) > 0 {
                before.push((DropReason::nth(n - 1).name(), nonzero(self.row(n - 1), frame_names())))
            } else {
                before
            }
        }
    }

    /// All counts zero.
    pub fn new() -> (r: Self)
        ensures
            r.wf(),
            sum(r.cells@) == 0,
            forall|reason: DropReason, frame_type: FrameType| r.cell(reason, frame_type) == 0,
    {
        let mut cells: Vec<u64> = Vec::new();
        let mut i: usize = 0;
        while i < DROP_REASONS * FRAME_TYPES
            invariant
                i <= DROP_REASONS * FRAME_TYPES,
                cells@.len() == i,
                sum(cells@) == 0,
                forall|j: int| 0 <= j < i ==> cells@[j] == 0,
            decreases DROP_REASONS * FRAME_TYPES - i,
        {
            let ghost before = cells@;
            cells.push(0);
            assert(cells@.drop_last() =~= before);
            i = i + 1;
        }
        DropCounters { cells }
    }

    /// Counts one dropped frame, and gives the new count of its reason.
    pub fn record(&mut self, reason: DropReason, frame_type: FrameType) -> (r: u64)
        requires
            old(self).wf(),
            sum(old(self).cells@) < u64::MAX,
        ensures
            final(self).wf(),
            final(self).cells@ == old(self).cells@.update(
                FRAME_TYPES * reason.place() + frame_type.place(),
                (old(self).cell(reason, frame_type) + 1) as u64,
            ),
            r == final(self).of_reason(reason),
            r == old(self).of_reason(reason) + 1,
    {
        let i: usize = FRAME_TYPES * reason.index() + frame_type.index();
        let ghost before = self.cells@;
        let ghost row = self.row(reason.place());
        proof {
            assert(before.subrange(i as int, i + 1) =~= seq![before[i as int]]);
            assert(seq![before[i as int]].drop_last() =~= Seq::<u64>::empty());
            lemma_sum_part(before, i as int, i + 1);
            lemma_sum_update(before, i as int, (before[i as int] + 1) as u64);
            lemma_sum_update(row, frame_type.place(), (before[i as int] + 1) as u64);
        }
        let n: u64 = self.cells[i];
        self.cells.set(i, n + 1);
        assert(self.row(reason.place()) =~= row.update(frame_type.place(), (n + 1) as u64));
        self.get(reason)
    }

    /// The count of one reason, over all frame types.
    pub fn get(&self, reason: DropReason) -> (r: u64)
        requires
            self.wf(),
        ensures
            r == self.of_reason(reason),
    {
        let from: usize = FRAME_TYPES * reason.index();
        sum_between(&self.cells, from, from + FRAME_TYPES)
    }

    /// The count of one reason and frame type.
    pub fn get_frame(&self, reason: DropReason, frame_type: FrameType) -> (r: u64)
        requires
            self.wf(),
        ensures
            r == self.cell(reason, frame_type),
    {
        self.cells[FRAME_TYPES * reason.index() + frame_type.index()]
    }

    /// The count of all drops.
    pub fn total(&self) -> (r: u64)
        requires
            self.wf(),
        ensures
            r == sum(self.cells@),
    {
        assert(self.cells@.subrange(0, self.cells@.len() as int) =~= self.cells@);
        sum_between(&self.cells, 0, self.cells.len())
    }

    /// The counts that are not zero, by reason, and for each such reason by
    /// frame type.
    pub fn snapshot(&self) -> (r: DropSnapshot)
        requires
            self.wf(),
        ensures
            r.total == sum(self.cells@),
            r.by_reason@ == nonzero(self.by_reason(), reason_names()),
            r.by_reason_frame_type@ == self.breakdown(DROP_REASONS as int),
    {
        let mut by_reason = CountMap::new();
        let mut by_reason_frame_type = CountTable::new();
        let mut i: usize = 0;
        let ghost counts = self.by_reason();
        while i < DROP_REASONS
            invariant
                i <= DROP_REASONS,
                self.wf(),
                counts == self.by_reason(),
                by_reason@ == nonzero(counts.subrange(0, i as int), reason_names()),
                by_reason_frame_type@ == self.breakdown(i as int),
            decreases DROP_REASONS - i,
        {
            let reason = DropReason::at(i);
            let count: u64 = self.get(reason);
            assert(counts.subrange(0, i + 1).drop_last() =~= counts.subrange(0, i as int));
            assert(counts[i as int] == count);
            if count > 0 {
                by_reason.push(reason.as_str(), count);
                let by_frame = self.frame_counts(i);
                by_reason_frame_type.push(reason.as_str(), by_frame);
            }
            i = i + 1;
        }
        assert(counts.subrange(0, counts.len() as int) =~= counts);
        DropSnapshot { total: self.total(), by_reason, by_reason_frame_type }
    }

    /// The counts of one reason that are not zero, by frame type.
    fn frame_counts(&self, reason: usize) -> (r: CountMap)
        requires
            self.wf(),
            reason < DROP_REASONS,
        ensures
            r@ == nonzero(self.row(reason as int), frame_names()),
    {
        let mut by_frame = CountMap::new();
        let mut j: usize = 0;
        let ghost row = self.row(reason as int);
        while j < FRAME_TYPES
            invariant
                j <= FRAME_TYPES,
                self.wf(),
                reason < DROP_REASONS,
                row == self.row(reason as int),
                by_frame@ == nonzero(row.subrange(0, j as int), frame_names()),
            decreases FRAME_TYPES - j,
        {
            let frame_type = FrameType::at(j);
            let cell: u64 = self.cells[FRAME_TYPES * reason + j];
            assert(row.subrange(0, j + 1).drop_last() =~= row.subrange(0, j as int));
            assert(row[j as int] == cell);
            if cell > 0 {
                by_frame.push(frame_type.as_str(), cell);
            }
            j = j + 1;
        }
        assert(row.subrange(0, row.len() as int) =~= row);
        by_frame
    }
}

/// The drop counts at one moment.
#[derive(Debug, PartialEq, Eq, Default)]
pub struct DropSnapshot {
    pub total: u64,
    /// Reason to count; reasons without drops are left out.
    pub by_reason: CountMap,
    /// Reason to (frame type to count), with the reasons of `by_reason`.
    pub by_reason_frame_type: CountTable,
}

/// Law: every dropped frame adds one to the total, one to its reason, one to
/// its cell, and changes no other cell.
pub proof fn law_drop_counts_once(
    before: DropCounters,
    after: DropCounters,
    reason: DropReason,
    frame_type: FrameType,
)
    requires
        before.wf(),
        sum(before.cells@) < u64::MAX,
        after.cells@ == before.cells@.update(
            FRAME_TYPES * reason.place() + frame_type.place(),
            (before.cell(reason, frame_type) + 1) as u64,
        ),
    ensures
        sum(after.cells@) == sum(before.cells@) + 1,
        after.cell(reason, frame_type) == before.cell(reason, frame_type) + 1,
        forall|r: DropReason, f: FrameType|
            (r != reason || f != frame_type) ==> after.cell(r, f) == before.cell(r, f),
{
    let i = FRAME_TYPES * reason.place() + frame_type.place();
    assert(before.cells@.subrange(i, i + 1) =~= seq![before.cells@[i]]);
    assert(seq![before.cells@[i]].drop_last() =~= Seq::<u64>::empty());
    lemma_sum_part(before.cells@, i, i + 1);
    lemma_sum_update(before.cells@, i, (before.cells@[i] + 1) as u64);
}

/// Law: the total is the sum of the counts by reason.
pub proof fn law_drop_total_is_sum_of_reasons(counters: DropCounters)
    requires
        counters.wf(),
    ensures
        sum(counters.cells@) == sum(counters.by_reason()),
{
    let c = counters.cells@;
    let b = counters.by_reason();
    assert(c =~= counters.row(0) + counters.row(1) + counters.row(2));
    lemma_sum_append(counters.row(0) + counters.row(1), counters.row(2));
    lemma_sum_append(counters.row(0), counters.row(1));
    assert(b =~= seq![b[0], b[1], b[2]]);
    assert(b.drop_last().drop_last().drop_last() =~= Seq::<u64>::empty());
    reveal_with_fuel(sum, 4);
}

// ---------------------------------------------------------------------------
// Stragglers
// ---------------------------------------------------------------------------

/// Counts of the benign frames that arrive after their request ended, by frame
/// type.
#[derive(Debug)]
pub struct StragglerCounters {
    pub cells: Vec<u64>,
}

impl StragglerCounters {
    /// There is a count for each frame type, and all of them together fit a
    /// counter.
    pub open spec fn wf(&self) -> bool {
        self.cells@.len() == FRAME_TYPES && sum(self.cells@) <= u64::MAX
    }

    /// All counts zero.
    pub fn new() -> (r: Self)
        ensures
            r.wf(),
            sum(r.cells@) == 0,
            forall|i: int| 0 <= i < FRAME_TYPES ==> r.cells@[i] == 0,
    {
        let mut cells: Vec<u64> = Vec::new();
        let mut i: usize = 0;
        while i < FRAME_TYPES
            invariant
                i <= FRAME_TYPES,
                cells@.len() == i,
                sum(cells@) == 0,
                forall|j: int| 0 <= j < i ==> cells@[j] == 0,
            decreases FRAME_TYPES - i,
        {
            let ghost before = cells@;
            cells.push(0);
            assert(cells@.drop_last() =~= before);
            i = i + 1;
        }
        StragglerCounters { cells }
    }

    /// Counts one straggler, and gives the new total.
    pub fn record(&mut self, frame_type: FrameType) -> (r: u64)
        requires
            old(self).wf(),
            sum(old(self).cells@) < u64::MAX,
        ensures
            final(self).wf(),
            final(self).cells@ == old(self).cells@.update(
                frame_type.place(),
                (old(self).cells@[frame_type.place()] + 1) as u64,
            ),
            r == sum(final(self).cells@),
            r == sum(old(self).cells@) + 1,
    {
        let i: usize = frame_type.index();
        let ghost before = self.cells@;
        proof {
            assert(before.subrange(i as int, i + 1) =~= seq![before[i as int]]);
            assert(seq![before[i as int]].drop_last() =~= Seq::<u64>::empty());
            lemma_sum_part(before, i as int, i + 1);
            lemma_sum_update(before, i as int, (before[i as int] + 1) as u64);
        }
        let n: u64 = self.cells[i];
        self.cells.set(i, n + 1);
        self.total()
    }

    /// The count of one frame type.
    pub fn get(&self, frame_type: FrameType) -> (r: u64)
        requires
            self.wf(),
        ensures
            r == self.cells@[frame_type.place()],
    {
        self.cells[frame_type.index()]
    }

    /// The count of all stragglers.
    pub fn total(&self) -> (r: u64)
        requires
            self.wf(),
        ensures
            r == sum(self.cells@),
    {
        assert(self.cells@.subrange(0, self.cells@.len() as int) =~= self.cells@);
        sum_between(&self.cells, 0, self.cells.len())
    }

    /// The counts that are not zero, by frame type.
    pub fn snapshot(&self) -> (r: StragglerSnapshot)
        requires
            self.wf(),
        ensures
            r.total == sum(self.cells@),
            r.by_frame_type@ == nonzero(self.cells@, frame_names()),
    {
        let mut by_frame_type = CountMap::new();
        let mut j: usize = 0;
        while j < FRAME_TYPES
            invariant
                j <= FRAME_TYPES,
                self.wf(),
                by_frame_type@ == nonzero(self.cells@.subrange(0, j as int), frame_names()),
            decreases FRAME_TYPES - j,
        {
            let frame_type = FrameType::at(j);
            let cell: u64 = self.cells[j];
            assert(self.cells@.subrange(0, j + 1).drop_last() =~= self.cells@.subrange(
                0,
                j as int,
            ));
            if cell > 0 {
                by_frame_type.push(frame_type.as_str(), cell);
            }
            j = j + 1;
        }
        assert(self.cells@.subrange(0, self.cells@.len() as int) =~= self.cells@);
        StragglerSnapshot { total: self.total(), by_frame_type }
    }
}

/// The straggler counts at one moment.
#[derive(Debug, PartialEq, Eq, Default)]
pub struct StragglerSnapshot {
    pub total: u64,
    /// Frame type to count; types without stragglers are left out.
    pub by_frame_type: CountMap,
}

// ---------------------------------------------------------------------------
// Ended flows
// ---------------------------------------------------------------------------

/// The flows that have ended, oldest first, at most `cap` of them.
#[derive(Debug)]
pub struct TerminatedFlows {
    pub order: Vec<FlowKey>,
    pub cap: usize,
}

/// The list after the flow `key` has ended: unchanged where it is already
/// there; else with `key` at the end, and without its oldest where it was full.
pub open spec fn flows_after(order: Seq<FlowKey>, cap: int, key: FlowKey) -> Seq<FlowKey> {
    if order.contains(key) {
        order
    } else if order.len() == cap {
        order.drop_first().push(key)
    } else {
        order.push(key)
    }
}

impl TerminatedFlows {
    /// No flow occurs twice, and there are no more than `cap`.
    pub open spec fn wf(&self) -> bool {
        0 < self.cap && self.order@.len() <= self.cap && self.order@.no_duplicates()
    }

    /// No flows, with room for `cap`.
    pub fn new(cap: usize) -> (r: Self)
        requires
            cap > 0,
        ensures
            r.wf(),
            r.order@.len() == 0,
            r.cap == cap,
    {
        TerminatedFlows { order: Vec::new(), cap }
    }

    /// Marks a flow as ended; the oldest leaves where there is no room.
    pub fn insert(&mut self, key: FlowKey)
        requires
            old(self).wf(),
        ensures
            final(self).wf(),
            final(self).cap == old(self).cap,
            final(self).order@ == flows_after(old(self).order@, old(self).cap as int, key),
    {
        if self.contains(&key) {
            return;
        }
        let ghost before = self.order@;
        if self.order.len() == self.cap {
            self.order.remove(0);
            assert(self.order@ =~= before.drop_first());
        }
        self.order.push(key);
        proof {
            let after = self.order@;
            assert forall|i: int, j: int|
                0 <= i < after.len() && 0 <= j < after.len() && i != j implies after[i]
                != after[j] by {
                let shift: int = if before.len() == self.cap {
                    1
                } else {
                    0
                };
                if i < after.len() - 1 {
                    assert(after[i] == before[i + shift]);
                }
                if j < after.len() - 1 {
                    assert(after[j] == before[j + shift]);
                }
            }
        }
    }

    /// Whether the flow has ended and is still remembered.
    pub fn contains(&self, key: &FlowKey) -> (r: bool)
        ensures
            r == self.order@.contains(*key),
    {
        let mut i: usize = 0;
        while i < self.order.len()
            invariant
                i <= self.order@.len(),
                forall|j: int| 0 <= j < i ==> self.order@[j] != *key,
            decreases self.order@.len() - i,
        {
            if self.order[i] == *key {
                return true;
            }
            i = i + 1;
        }
        false
    }

    /// How many flows are remembered.
    pub fn len(&self) -> (r: usize)
        ensures
            r == self.order@.len(),
    {
        self.order.len()
    }

    /// Whether no flow is remembered.
    pub fn is_empty(&self) -> (r: bool)
        ensures
            r == (self.order@.len() == 0),
    {
        self.order.len() == 0
    }
}

/// Law: a flow that has just ended is remembered, and where another flow is
/// forgotten for it, that is the oldest one and no other.
pub proof fn law_oldest_flow_leaves_first(flows: TerminatedFlows, key: FlowKey)
    requires
        flows.wf(),
    ensures
        flows_after(flows.order@, flows.cap as int, key).contains(key),
        forall|i: int|
            0 < i < flows.order@.len() ==> flows_after(
                flows.order@,
                flows.cap as int,
                key,
            ).contains(#[trigger] flows.order@[i]),
        flows_after(flows.order@, flows.cap as int, key).len() <= flows.cap,
{
    let order = flows.order@;
    let after = flows_after(order, flows.cap as int, key);
    if !order.contains(key) {
        assert(after[after.len() - 1] == key);
        assert forall|i: int| 0 < i < order.len() implies after.contains(#[trigger] order[i]) by {
            if order.len() == flows.cap {
                assert(after[i - 1] == order[i]);
            } else {
                assert(after[i] == order[i]);
            }
        }
    } else {
        assert forall|i: int| 0 < i < order.len() implies after.contains(#[trigger] order[i]) by {
        }
    }
}

proof fn lemma_count_of_push(s: Seq<(Seq<char>, u64)>, name: Seq<char>, n: u64, key: Seq<char>)
    ensures
        count_of(s, key) is Some ==> count_of(s.push((name, n)), key) == count_of(s, key),
        count_of(s, key) is None ==> count_of(s.push((name, n)), key) == (if name == key {
            Some(n)
        } else {
            None
        }),
    decreases s.len(),
{
    reveal_with_fuel(count_of, 2);
    let t = s.push((name, n));
    if s.len() == 0 {
        assert(t.drop_first() =~= Seq::<(Seq<char>, u64)>::empty());
    } else {
        lemma_count_of_push(s.drop_first(), name, n, key);
        assert(t.drop_first() =~= s.drop_first().push((name, n)));
    }
}

proof fn lemma_nonzero(counts: Seq<u64>, names: spec_fn(int) -> Seq<char>, n: int, i: int)
    requires
        0 <= i < n,
        counts.len() <= n,
        forall|a: int, b: int|
            0 <= a < n && 0 <= b < n && a != b ==> #[trigger] names(a) != #[trigger] names(b),
    ensures
        count_of(nonzero(counts, names), names(i)) == (if i < counts.len() && counts[i] > 0 {
            Some(counts[i])
        } else {
            None
        }),
    decreases counts.len(),
{
    if counts.len() > 0 {
        let rest = counts.drop_last();
        lemma_nonzero(rest, names, n, i);
        let last = counts.len() - 1;
        if counts.last() > 0 {
            lemma_count_of_push(nonzero(rest, names), names(last), counts.last(), names(i));
            if i != last {
                assert(names(i) != names(last));
            }
        }
        if i < last {
            assert(rest[i] == counts[i]);
        }
    }
}

/// Law: a table of counts tells each count that is not zero under its own name,
/// and no other.
pub proof fn law_table_tells_each_count_under_its_name(
    counts: Seq<u64>,
    names: spec_fn(int) -> Seq<char>,
    i: int,
)
    requires
        0 <= i < counts.len(),
        forall|a: int, b: int|
            0 <= a < counts.len() && 0 <= b < counts.len() && a != b ==> #[trigger] names(a)
                != #[trigger] names(b),
    ensures
        counts[i] > 0 ==> count_of(nonzero(counts, names), names(i)) == Some(counts[i]),
        counts[i] == 0 ==> count_of(nonzero(counts, names), names(i)) is None,
{
    lemma_nonzero(counts, names, counts.len() as int, i);
}

/// Law: the breakdown of drops has a table for each reason that has any, under
/// its name, with the counts of that reason; and no other.
pub proof fn law_breakdown_has_a_table_for_each_reason(
    counters: DropCounters,
    n: int,
    table: (Seq<char>, Seq<(Seq<char>, u64)>),
)
    requires
        0 <= n <= DROP_REASONS,
    ensures
        counters.breakdown(n).contains(table) <==> exists|r: int|
            {
                &&& 0 <= r < n
                &&& sum(#[trigger] counters.row(r)) > 0
                &&& table == (
                    DropReason::nth(r).name(),
                    nonzero(counters.row(r), |i: int| FrameType::nth(i).name()),
                )
            },
    decreases n,
{
    if n > 0 {
        law_breakdown_has_a_table_for_each_reason(counters, n - 1, table);
        let before = counters.breakdown(n - 1);
        let all = counters.breakdown(n);
        assert(frame_names() == (|i: int| FrameType::nth(i).name()));
        if before.contains(table) {
            let k = before.index_of(table);
            assert(all[k] == table);
        }
        if all.contains(table) && !before.contains(table) {
            let k = all.index_of(table);
            if k < before.len() {
                assert(before[k] == table);
            }
        }
        if sum(counters.row(n - 1)) > 0 {
            assert(all[all.len() - 1] == (
                DropReason::nth(n - 1).name(),
                nonzero(counters.row(n - 1), frame_names()),
            ));
        }
    }
}

} // verus!
