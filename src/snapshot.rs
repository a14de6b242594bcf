//! A whole sampling pass as a forest, and the single-slot exchange that hands
//! the latest one from the sampler to the consumer.
use vstd::prelude::*;
use crate::tree::{ProcessNode, sat, sum_aggregates, node_wf, forest_wf};

verus! {

broadcast use {vstd::seq::group_seq_axioms, vstd::std_specs::vec::group_vec_axioms};

/// The process forest of one pass: the top-level nodes in ascending pid
/// order, and the CPU usage of the whole forest.
pub struct ProcessSnapshot {
    pub top: Vec<ProcessNode>,
    pub total_cpu: u64,
}

/// Sum of every node's own CPU usage, at every depth.
pub open spec fn own_total(s: Seq<ProcessNode>) -> int
    decreases s, 0int,
{
    if s.len() == 0 {
        0
    } else {
        own_total(s.subrange(0, s.len() - 1)) + node_own_total(s[s.len() - 1])
    }
}

/// A node's own CPU usage plus that of every node below it.
pub open spec fn node_own_total(n: ProcessNode) -> int
    decreases n, 1int,
{
    n.sample.cpu_usage + own_total(n.children@)
}

impl ProcessSnapshot {
    /// The forest is well formed and `total_cpu` is the clamped sum of the
    /// top-level aggregates.
    pub open spec fn wf(&self) -> bool {
        &&& forest_wf(self.top@, None)
        &&& self.total_cpu == sat(sum_aggregates(self.top@))
    }

    /// The snapshot with no process.
    pub fn empty() -> (r: ProcessSnapshot)
        ensures
            r.wf(),
            r.top@.len() == 0,
            r.total_cpu == 0,
    {
        ProcessSnapshot { top: Vec::new(), total_cpu: 0 }
    }
}

pub proof fn lemma_own_total_nonneg(s: Seq<ProcessNode>)
    ensures
        own_total(s) >= 0,
    decreases s,
{
    if s.len() > 0 {
        let last = s[s.len() - 1];
        lemma_own_total_nonneg(s.subrange(0, s.len() - 1));
        lemma_own_total_nonneg(last.children@);
        assert(node_own_total(last) == last.sample.cpu_usage + own_total(last.children@));
    }
}

proof fn lemma_sum_aggregates_nonneg(s: Seq<ProcessNode>)
    ensures
        sum_aggregates(s) >= 0,
    decreases s.len(),
{
    if s.len() > 0 {
        lemma_sum_aggregates_nonneg(s.subrange(0, s.len() - 1));
    }
}

/// Over well-formed nodes the aggregates add up to the own usage of every
/// node, both clamped to `u64`.
pub proof fn lemma_aggregates_are_own_totals(s: Seq<ProcessNode>, parent: Option<i32>)
    requires
        forall|i: int| 0 <= i < s.len() ==> node_wf(#[trigger] s[i], parent),
    ensures
        sat(sum_aggregates(s)) == sat(own_total(s)),
    decreases s,
{
    if s.len() > 0 {
        let k = s.len() - 1;
        let init = s.subrange(0, k);
        let last = s[k];
        assert(node_wf(last, parent));
        assert forall|i: int| 0 <= i < init.len() implies node_wf(#[trigger] init[i], parent) by {
            assert(node_wf(s[i], parent));
        }
        lemma_aggregates_are_own_totals(init, parent);
        assert forall|i: int| 0 <= i < last.children@.len() implies node_wf(
            #[trigger] last.children@[i],
            Some(last.sample.pid),
        ) by {
            assert(forest_wf(last.children@, Some(last.sample.pid)));
        }
        lemma_aggregates_are_own_totals(last.children@, Some(last.sample.pid));
        lemma_own_total_nonneg(init);
        lemma_own_total_nonneg(last.children@);
        lemma_sum_aggregates_nonneg(init);
        lemma_sum_aggregates_nonneg(last.children@);
        assert(node_own_total(last) == last.sample.cpu_usage + own_total(last.children@));
    }
}

/// The total CPU of a well-formed snapshot is the sum of every node's own
/// usage (clamped to `u64`).
pub proof fn lemma_total_cpu_is_sum_of_own_usage(snap: ProcessSnapshot)
    requires
        snap.wf(),
    ensures
        snap.total_cpu == sat(own_total(snap.top@)),
{
    lemma_aggregates_are_own_totals(snap.top@, None);
    lemma_sum_aggregates_nonneg(snap.top@);
}

/// What the slot holds after a publish of `snapshot`: that snapshot alone.
pub open spec fn slot_after_publish(
    slot: Option<ProcessSnapshot>,
    snapshot: ProcessSnapshot,
) -> Option<ProcessSnapshot> {
    Some(snapshot)
}

/// What a take from the slot returns: whatever it holds.
pub open spec fn taken_from(slot: Option<ProcessSnapshot>) -> Option<ProcessSnapshot> {
    slot
}

/// Two publishes before a take: the take returns the second snapshot, whatever
/// the slot held before.
pub proof fn lemma_last_publish_wins(
    slot: Option<ProcessSnapshot>,
    first: ProcessSnapshot,
    second: ProcessSnapshot,
)
    ensures
        taken_from(slot_after_publish(slot_after_publish(slot, first), second)) == Some(second),
{
}

/// A mailbox with room for one snapshot: a publish overwrites what was not
/// taken yet.
pub struct SnapshotExchange {
    slot: Option<ProcessSnapshot>,
}

impl SnapshotExchange {
    pub closed spec fn pending(&self) -> Option<ProcessSnapshot> {
        self.slot
    }

    /// A waiting snapshot is well formed.
    pub open spec fn wf(&self) -> bool {
        self.pending() is Some ==> self.pending()->0.wf()
    }

    pub fn new() -> (r: SnapshotExchange)
        ensures
            r.wf(),
            r.pending() is None,
    {
        SnapshotExchange { slot: None }
    }

    /// Stores `snapshot`, dropping any one that was not taken.
    pub fn publish(&mut self, snapshot: ProcessSnapshot)
        requires
            snapshot.wf(),
        ensures
            final(self).wf(),
            final(self).pending() == slot_after_publish(old(self).pending(), snapshot),
    {
        self.slot = Some(snapshot);
    }

    /// Whether a snapshot waits.
    pub fn has_pending(&self) -> (r: bool)
        ensures
            r == self.pending() is Some,
    {
        self.slot.is_some()
    }

    /// Takes the waiting snapshot, if any, and leaves the slot empty.
    pub fn try_take(&mut self) -> (r: Option<ProcessSnapshot>)
        ensures
            r == taken_from(old(self).pending()),
            final(self).wf(),
            final(self).pending() is None,
    {
        let mut taken: Option<ProcessSnapshot> = None;
        core::mem::swap(&mut taken, &mut self.slot);
        taken
    }
}

} // verus!
