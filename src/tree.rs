//! The process forest: samples, nodes, and the properties that hold of every
//! well-formed sibling sequence.
use vstd::prelude::*;
use crate::cpu::approx_eq_spec;

verus! {

broadcast use {vstd::seq::group_seq_axioms, vstd::std_specs::vec::group_vec_axioms};

/// What one sampling pass reports of one process. CPU usage is held as an
/// integer in hundredths of a percent.
pub struct ProcessSample {
    pub pid: i32,
    pub parent: Option<i32>,
    pub name: String,
    pub exe: String,
    pub cmd: Vec<String>,
    pub uid: u32,
    pub memory: u64,
    pub cpu_usage: u64,
}

/// One process in a tree: its position among its siblings, its sample, the
/// CPU usage of its whole subtree, and its children in ascending pid order.
pub struct ProcessNode {
    pub row: usize,
    pub sample: ProcessSample,
    pub aggregate_cpu: u64,
    pub children: Vec<ProcessNode>,
}

/// `x` clamped to the range of `u64`.
pub open spec fn sat(x: int) -> int {
    if x > u64::MAX as int {
        u64::MAX as int
    } else {
        x
    }
}

pub open spec fn ascending(s: Seq<ProcessNode>) -> bool {
    forall|i: int, j: int| 0 <= i < j < s.len() ==> s[i].sample.pid < s[j].sample.pid
}

/// Sum of the subtree aggregates of a sibling sequence.
pub open spec fn sum_aggregates(s: Seq<ProcessNode>) -> int
    decreases s.len(),
{
    if s.len() == 0 {
        0
    } else {
        sum_aggregates(s.subrange(0, s.len() - 1)) + s[s.len() - 1].aggregate_cpu
    }
}

/// A node is well formed when it names its parent, its aggregate is its own
/// usage plus its children's aggregates (clamped), and its children are well
/// formed.
pub open spec fn node_wf(n: ProcessNode, parent: Option<i32>) -> bool
    decreases n, 0int,
{
    &&& n.sample.parent == parent
    &&& n.aggregate_cpu == sat(n.sample.cpu_usage + sum_aggregates(n.children@))
    &&& forest_wf(n.children@, Some(n.sample.pid))
}

/// A sibling sequence is well formed when it is strictly ascending by pid,
/// each member's row is its position, and each member is well formed.
pub open spec fn forest_wf(s: Seq<ProcessNode>, parent: Option<i32>) -> bool
    decreases s, 1int,
{
    &&& ascending(s)
    &&& forall|i: int| 0 <= i < s.len() ==> (#[trigger] s[i]).row == i
    &&& forall|i: int| 0 <= i < s.len() ==> node_wf(#[trigger] s[i], parent)
}

pub open spec fn cmd_view(c: Seq<String>) -> Seq<Seq<char>> {
    c.map_values(|t: String| t@)
}

/// The fields that a sync takes from the incoming sample agree, the CPU
/// reading within tolerance.
pub open spec fn sample_matches(a: ProcessSample, b: ProcessSample) -> bool {
    &&& a.pid == b.pid
    &&& a.parent == b.parent
    &&& a.name@ == b.name@
    &&& a.exe@ == b.exe@
    &&& cmd_view(a.cmd@) == cmd_view(b.cmd@)
    &&& a.memory == b.memory
    &&& a.uid == b.uid
    &&& approx_eq_spec(a.cpu_usage, b.cpu_usage)
}

/// Two samples hold the same values in every field.
pub open spec fn sample_same(a: ProcessSample, b: ProcessSample) -> bool {
    &&& sample_matches(a, b)
    &&& a.cpu_usage == b.cpu_usage
}

/// `a` has the shape of `b`, with matching samples at every node.
pub open spec fn node_matches(a: ProcessNode, b: ProcessNode) -> bool
    decreases b, 0int,
{
    &&& sample_matches(a.sample, b.sample)
    &&& forest_matches(a.children@, b.children@)
}

pub open spec fn forest_matches(a: Seq<ProcessNode>, b: Seq<ProcessNode>) -> bool
    decreases b, 1int,
{
    &&& a.len() == b.len()
    &&& forall|i: int| 0 <= i < b.len() ==> node_matches(a[i], #[trigger] b[i])
}

/// `a` and `b` hold the same pids in the same shape, with the same field
/// values and aggregates.
pub open spec fn node_same(a: ProcessNode, b: ProcessNode) -> bool
    decreases b, 0int,
{
    &&& sample_same(a.sample, b.sample)
    &&& a.aggregate_cpu == b.aggregate_cpu
    &&& forest_same(a.children@, b.children@)
}

pub open spec fn forest_same(a: Seq<ProcessNode>, b: Seq<ProcessNode>) -> bool
    decreases b, 1int,
{
    &&& a.len() == b.len()
    &&& forall|i: int| 0 <= i < b.len() ==> node_same(a[i], #[trigger] b[i])
}

/// Every node matches itself.
pub proof fn lemma_node_matches_refl(n: ProcessNode)
    ensures
        node_matches(n, n),
    decreases n,
{
    assert forall|i: int| 0 <= i < n.children@.len() implies node_matches(
        n.children@[i],
        #[trigger] n.children@[i],
    ) by {
        lemma_node_matches_refl(n.children@[i]);
    }
}

/// The number of nodes of the forest `s`, at every depth.
pub open spec fn forest_size(s: Seq<ProcessNode>) -> nat
    decreases s, 0int,
{
    if s.len() == 0 {
        0
    } else {
        forest_size(s.subrange(0, s.len() - 1)) + node_size(s[s.len() - 1])
    }
}

/// The number of nodes of the subtree rooted at `n`.
pub open spec fn node_size(n: ProcessNode) -> nat
    decreases n, 1int,
{
    1 + forest_size(n.children@)
}

} // verus!
