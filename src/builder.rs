//! Turns one raw enumeration of the process table into a well-formed
//! snapshot.
use vstd::prelude::*;
use crate::tree::{ProcessNode, ProcessSample, node_wf, forest_wf, forest_size, node_size};
use vstd::multiset::Multiset;
use crate::snapshot::ProcessSnapshot;
use crate::sync::subtree_aggregate;

verus! {

broadcast use {vstd::seq::group_seq_axioms, vstd::std_specs::vec::group_vec_axioms};

/// A process as the operating system reports it, with the tasks nested under
/// it.
pub struct RawProcess {
    pub sample: ProcessSample,
    pub tasks: Vec<RawProcess>,
}

/// Why a raw enumeration gives no snapshot.
#[derive(PartialEq, Eq, Structural, Clone, Copy, Debug)]
pub enum BuildError {
    /// A nested task does not name the process it is nested under as parent.
    CorruptHierarchy,
    /// Two processes under one parent share a pid.
    DuplicatePid(i32),
    /// A process names a parent that is not in the enumeration.
    MissingParent(i32),
    /// A process whose chain of parents does not lead to a top-level
    /// process although every parent it names is present: the chain loops.
    Unreachable(i32),
}

/// Every task nested under a process names that process as its parent.
pub open spec fn hierarchy_ok(parent: Option<i32>, s: Seq<RawProcess>) -> bool
    decreases s,
{
    forall|i: int|
        0 <= i < s.len() ==> {
            &&& (parent is Some ==> (#[trigger] s[i]).sample.parent == parent)
            &&& hierarchy_ok(Some(s[i].sample.pid), s[i].tasks@)
        }
}

/// Every sample of the enumeration, each before the tasks nested under it.
pub open spec fn flatten(s: Seq<RawProcess>) -> Seq<ProcessSample>
    decreases s,
{
    if s.len() == 0 {
        Seq::empty()
    } else {
        seq![s[0].sample] + flatten(s[0].tasks@) + flatten(s.subrange(1, s.len() as int))
    }
}

/// Checks that each nested task names its enclosing process as parent.
pub fn check_process_hierarchy(parent: Option<i32>, processes: &Vec<RawProcess>) -> (r: bool)
    ensures
        r == hierarchy_ok(parent, processes@),
    decreases processes@,
{
    let mut i: usize = 0;
    while i < processes.len()
        invariant
            i <= processes.len(),
            forall|k: int|
                0 <= k < i ==> {
                    &&& (parent is Some ==> (#[trigger] processes@[k]).sample.parent == parent)
                    &&& hierarchy_ok(Some(processes@[k].sample.pid), processes@[k].tasks@)
                },
        decreases processes.len() - i,
    {
        let p = &processes[i];
        match parent {
            Some(_) => {
                if p.sample.parent != parent {
                    return false;
                }
            },
            None => {},
        }
        proof {
            assert(decreases_to!(processes@ => processes@[i as int].tasks@));
        }
        if !check_process_hierarchy(Some(p.sample.pid), &p.tasks) {
            return false;
        }
        i += 1;
    }
    true
}

/// Moves every sample of `tasks`, at any depth, to the end of `out`.
pub fn collect_processes(tasks: Vec<RawProcess>, out: &mut Vec<ProcessSample>)
    ensures
        final(out)@ == old(out)@ + flatten(tasks@),
    decreases tasks@,
{
    let ghost orig = tasks@;
    let ghost start = out@;
    let mut rest = tasks;
    while rest.len() > 0
        invariant
            orig == tasks@,
            rest@.len() <= orig.len(),
            rest@ == orig.subrange(orig.len() - rest@.len(), orig.len() as int),
            out@ + flatten(rest@) == start + flatten(orig),
        decreases rest.len(),
    {
        let ghost before = rest@;
        let RawProcess { sample, tasks: nested } = rest.remove(0);
        proof {
            assert(before.subrange(1, before.len() as int) =~= rest@);
            assert(decreases_to!(tasks@ => before[0]));
        }
        out.push(sample);
        collect_processes(nested, out);
        proof {
            assert(flatten(before) == seq![before[0].sample] + flatten(before[0].tasks@) + flatten(
                rest@,
            ));
            assert(out@ + flatten(rest@) =~= start + flatten(orig));
        }
    }
    assert(rest@ =~= Seq::<RawProcess>::empty());
    assert(out@ =~= start + flatten(orig));
}

/// Strictly ascending by pid.
pub open spec fn samples_ascending(s: Seq<ProcessSample>) -> bool {
    forall|i: int, j: int| 0 <= i < j < s.len() ==> s[i].pid < s[j].pid
}

/// No two samples share a pid.
pub open spec fn unique_pids(s: Seq<ProcessSample>) -> bool {
    forall|i: int, j: int| 0 <= i < j < s.len() ==> s[i].pid != s[j].pid
}

/// Some sample has pid `pid`.
pub open spec fn has_sample(s: Seq<ProcessSample>, pid: i32) -> bool {
    exists|j: int| 0 <= j < s.len() && s[j].pid == pid
}

/// Every declared parent is the pid of some sample.
pub open spec fn parents_present(s: Seq<ProcessSample>) -> bool {
    forall|i: int| 0 <= i < s.len() && s[i].parent is Some ==> has_sample(s, s[i].parent->0)
}

/// Every sample of the forest `s`, at every depth, counted once each.
pub open spec fn forest_samples(s: Seq<ProcessNode>) -> Multiset<ProcessSample>
    decreases s, 0int,
{
    if s.len() == 0 {
        Multiset::empty()
    } else {
        forest_samples(s.subrange(0, s.len() - 1)).add(node_samples(s[s.len() - 1]))
    }
}

/// The sample of `n` and every sample below it.
pub open spec fn node_samples(n: ProcessNode) -> Multiset<ProcessSample>
    decreases n, 1int,
{
    Multiset::singleton(n.sample).add(forest_samples(n.children@))
}

/// The pid of a sample that shares its pid with another one, if any.
pub fn find_duplicate_pid(samples: &Vec<ProcessSample>) -> (r: Option<i32>)
    ensures
        r is None <==> unique_pids(samples@),
        r is Some ==> exists|i: int, j: int|
            0 <= i < j < samples@.len() && samples@[i].pid == r->0 && samples@[j].pid == r->0,
{
    let mut i: usize = 0;
    while i < samples.len()
        invariant
            i <= samples.len(),
            forall|a: int, b: int| 0 <= a < b < samples@.len() && a < i ==> samples@[a].pid != samples@[b].pid,
        decreases samples.len() - i,
    {
        let mut j: usize = i + 1;
        while j < samples.len()
            invariant
                i < samples.len(),
                i + 1 <= j <= samples.len(),
                forall|a: int, b: int| 0 <= a < b < samples@.len() && a < i ==> samples@[a].pid != samples@[b].pid,
                forall|b: int| i < b < j ==> samples@[i as int].pid != samples@[b].pid,
            decreases samples.len() - j,
        {
            if samples[i].pid == samples[j].pid {
                return Some(samples[i].pid);
            }
            j += 1;
        }
        i += 1;
    }
    None
}

/// Whether some sample has pid `pid`.
fn contains_pid(samples: &Vec<ProcessSample>, pid: i32) -> (r: bool)
    ensures
        r == has_sample(samples@, pid),
{
    let mut j: usize = 0;
    while j < samples.len()
        invariant
            j <= samples.len(),
            forall|k: int| 0 <= k < j ==> samples@[k].pid != pid,
        decreases samples.len() - j,
    {
        if samples[j].pid == pid {
            return true;
        }
        j += 1;
    }
    false
}

/// The pid of a sample whose declared parent is no sample's pid, if any.
pub fn find_missing_parent(samples: &Vec<ProcessSample>) -> (r: Option<i32>)
    ensures
        r is None <==> parents_present(samples@),
        r is Some ==> exists|i: int|
            0 <= i < samples@.len() && samples@[i].pid == r->0 && samples@[i].parent is Some
                && !has_sample(samples@, samples@[i].parent->0),
{
    let mut i: usize = 0;
    while i < samples.len()
        invariant
            i <= samples.len(),
            forall|k: int|
                0 <= k < i && samples@[k].parent is Some ==> has_sample(
                    samples@,
                    samples@[k].parent->0,
                ),
        decreases samples.len() - i,
    {
        match samples[i].parent {
            Some(q) => {
                if !contains_pid(samples, q) {
                    return Some(samples[i].pid);
                }
            },
            None => {},
        }
        i += 1;
    }
    None
}

/// Inserts `sample`, whose pid `sorted` does not hold, into `sorted` at its
/// place by pid.
fn insert_sorted(sorted: &mut Vec<ProcessSample>, sample: ProcessSample)
    requires
        samples_ascending(old(sorted)@),
        forall|k: int| 0 <= k < old(sorted)@.len() ==> old(sorted)@[k].pid != sample.pid,
    ensures
        samples_ascending(final(sorted)@),
        exists|j: int|
            0 <= j <= old(sorted)@.len() && final(sorted)@ == old(sorted)@.insert(j, sample),
{
    let mut j: usize = 0;
    while j < sorted.len() && sorted[j].pid < sample.pid
        invariant
            j <= sorted.len(),
            forall|k: int| 0 <= k < j ==> sorted@[k].pid < sample.pid,
        decreases sorted.len() - j,
    {
        j += 1;
    }
    let ghost before = sorted@;
    sorted.insert(j, sample);
    assert(sorted@ == before.insert(j as int, sample));
}

/// Takes out of `pool` every sample whose parent is `parent`, in ascending pid
/// order, and builds the subtree of each from what is left in `pool`. Each
/// node's row is its position and its aggregate sums its subtree. The nodes
/// and what is left in `pool` hold exactly the samples `pool` held.
pub fn build_forest(parent: Option<i32>, pool: &mut Vec<ProcessSample>) -> (r: Vec<ProcessNode>)
    requires
        unique_pids(old(pool)@),
    ensures
        forest_wf(r@, parent),
        final(pool)@.len() + forest_size(r@) == old(pool)@.len(),
        forest_samples(r@).add(final(pool)@.to_multiset()) == old(pool)@.to_multiset(),
        unique_pids(final(pool)@),
        forall|k: int| 0 <= k < final(pool)@.len() ==> old(pool)@.contains(final(pool)@[k]),
        forall|k: int| 0 <= k < final(pool)@.len() ==> final(pool)@[k].parent != parent,
        old(pool)@.len() == 0 ==> r@.len() == 0,
    decreases old(pool)@.len(),
{
    broadcast use {vstd::seq_lib::group_to_multiset_ensures, vstd::multiset::group_multiset_axioms};

    let ghost entry = pool@.len();
    let mut sibs: Vec<ProcessSample> = Vec::new();
    let mut i: usize = 0;
    while i < pool.len()
        invariant
            i <= pool.len(),
            entry == old(pool)@.len(),
            pool@.len() + sibs@.len() == entry,
            unique_pids(old(pool)@),
            unique_pids(pool@),
            forall|a: int, b: int|
                0 <= a < sibs@.len() && 0 <= b < pool@.len() ==> sibs@[a].pid != pool@[b].pid,
            forall|k: int| 0 <= k < pool@.len() ==> old(pool)@.contains(#[trigger] pool@[k]),
            forall|k: int| 0 <= k < i ==> (#[trigger] pool@[k]).parent != parent,
            sibs@.to_multiset().add(pool@.to_multiset()) == old(pool)@.to_multiset(),
            samples_ascending(sibs@),
            forall|k: int| 0 <= k < sibs@.len() ==> (#[trigger] sibs@[k]).parent == parent,
        decreases pool.len() - i,
    {
        if pool[i].parent == parent {
            let ghost pool_before = pool@;
            let ghost sibs_before = sibs@;
            let s = pool.remove(i);
            assert(pool@ == pool_before.remove(i as int));
            assert(old(pool)@.contains(pool_before[i as int]));
            assert forall|k: int| 0 <= k < pool@.len() implies old(pool)@.contains(
                #[trigger] pool@[k],
            ) by {
                if k < i {
                    assert(pool@[k] == pool_before[k]);
                } else {
                    assert(pool@[k] == pool_before[k + 1]);
                }
            }
            insert_sorted(&mut sibs, s);
            let ghost j = choose|j: int|
                0 <= j <= sibs_before.len() && sibs@ == sibs_before.insert(j, s);
            assert forall|a: int, b: int|
                0 <= a < sibs@.len() && 0 <= b < pool@.len() implies sibs@[a].pid
                != pool@[b].pid by {
                let bb = if b < i { b } else { b + 1 };
                assert(pool@[b] == pool_before[bb]);
                if a < j {
                    assert(sibs@[a] == sibs_before[a]);
                } else if a > j {
                    assert(sibs@[a] == sibs_before[a - 1]);
                } else {
                    assert(sibs@[a] == pool_before[i as int]);
                }
            }
            proof {
                vstd::seq_lib::to_multiset_insert(sibs_before, j, s);
                vstd::seq_lib::to_multiset_remove(pool_before, i as int);
                assert(pool_before.contains(s));
                vstd::seq_lib::to_multiset_contains(pool_before, s);
            }
            assert(sibs@.to_multiset().add(pool@.to_multiset()) =~= sibs_before.to_multiset().add(
                pool_before.to_multiset(),
            ));
        } else {
            i += 1;
        }
    }
    let mut out: Vec<ProcessNode> = Vec::new();
    while sibs.len() > 0
        invariant
            entry == old(pool)@.len(),
            pool@.len() + sibs@.len() + forest_size(out@) == entry,
            entry == 0 ==> out@.len() == 0,
            unique_pids(pool@),
            forall|k: int| 0 <= k < pool@.len() ==> old(pool)@.contains(#[trigger] pool@[k]),
            forall|k: int| 0 <= k < pool@.len() ==> (#[trigger] pool@[k]).parent != parent,
            forest_samples(out@).add(sibs@.to_multiset()).add(pool@.to_multiset())
                == old(pool)@.to_multiset(),
            samples_ascending(sibs@),
            forall|k: int| 0 <= k < sibs@.len() ==> (#[trigger] sibs@[k]).parent == parent,
            forall|k: int|
                0 <= k < out@.len() ==> (#[trigger] out@[k]).row == k && node_wf(out@[k], parent),
            forall|k: int, j: int|
                0 <= k < j < out@.len() ==> out@[k].sample.pid < out@[j].sample.pid,
            forall|k: int, m: int|
                0 <= k < out@.len() && 0 <= m < sibs@.len() ==> out@[k].sample.pid
                    < sibs@[m].pid,
        decreases sibs.len(),
    {
        let ghost sibs_before = sibs@;
        let s = sibs.remove(0);
        assert(sibs@ == sibs_before.remove(0));
        proof {
            vstd::seq_lib::to_multiset_remove(sibs_before, 0);
            assert(sibs_before.contains(s));
            vstd::seq_lib::to_multiset_contains(sibs_before, s);
        }
        let pid = s.pid;
        let ghost pool_before = pool@;
        let children = build_forest(Some(pid), pool);
        assert forall|k: int| 0 <= k < pool@.len() implies old(pool)@.contains(
            #[trigger] pool@[k],
        ) by {
            assert(pool_before.contains(pool@[k]));
            let j = choose|j: int| 0 <= j < pool_before.len() && pool_before[j] == pool@[k];
            assert(old(pool)@.contains(pool_before[j]));
        }
        assert forall|k: int| 0 <= k < pool@.len() implies (#[trigger] pool@[k]).parent
            != parent by {
            assert(pool_before.contains(pool@[k]));
        }
        let aggregate = subtree_aggregate(s.cpu_usage, &children);
        let row = out.len();
        let node = ProcessNode { row, sample: s, aggregate_cpu: aggregate, children };
        let ghost before = out@;
        out.push(node);
        proof {
            assert(out@.subrange(0, out@.len() - 1) =~= before);
            assert(node_size(node) == 1 + forest_size(node.children@));
            assert(node_samples(node) == Multiset::singleton(s).add(
                forest_samples(node.children@),
            ));
            assert(forest_samples(out@) == forest_samples(before).add(node_samples(node)));
            assert(forest_samples(out@).add(sibs@.to_multiset()).add(pool@.to_multiset())
                =~= forest_samples(before).add(sibs_before.to_multiset()).add(
                pool_before.to_multiset(),
            ));
        }
    }
    out
}

/// Builds the snapshot of one enumeration: checks the nesting, collects every
/// sample, checks that pids are unique and that declared parents exist,
/// rebuilds the forest from the samples' parents, and sums the CPU.
pub fn build_snapshot(processes: Vec<RawProcess>) -> (r: Result<ProcessSnapshot, BuildError>)
    ensures
        !hierarchy_ok(None, processes@) <==> r == Err::<ProcessSnapshot, BuildError>(
            BuildError::CorruptHierarchy,
        ),
        hierarchy_ok(None, processes@) && !unique_pids(flatten(processes@)) ==> r is Err
            && r->Err_0 is DuplicatePid,
        r matches Err(BuildError::DuplicatePid(p)) ==> exists|i: int, j: int|
            0 <= i < j < flatten(processes@).len() && flatten(processes@)[i].pid == p
                && flatten(processes@)[j].pid == p,
        hierarchy_ok(None, processes@) && unique_pids(flatten(processes@)) && !parents_present(
            flatten(processes@),
        ) ==> r is Err && r->Err_0 is MissingParent,
        r matches Err(BuildError::MissingParent(p)) ==> exists|i: int|
            0 <= i < flatten(processes@).len() && flatten(processes@)[i].pid == p
                && flatten(processes@)[i].parent is Some && !has_sample(
                flatten(processes@),
                flatten(processes@)[i].parent->0,
            ),
        r matches Err(BuildError::Unreachable(p)) ==> hierarchy_ok(None, processes@)
            && unique_pids(flatten(processes@)) && parents_present(flatten(processes@))
            && has_sample(flatten(processes@), p),
        r is Ok ==> hierarchy_ok(None, processes@) && r->Ok_0.wf(),
        r is Ok ==> forest_samples(r->Ok_0.top@) == flatten(processes@).to_multiset(),
        r is Ok ==> forest_size(r->Ok_0.top@) == flatten(processes@).len(),
        processes@.len() == 0 ==> r is Ok && r->Ok_0.top@.len() == 0,
{
    broadcast use vstd::seq_lib::group_to_multiset_ensures;

    if !check_process_hierarchy(None, &processes) {
        return Err(BuildError::CorruptHierarchy);
    }
    let ghost raw = processes@;
    let mut pool: Vec<ProcessSample> = Vec::new();
    collect_processes(processes, &mut pool);
    assert(pool@ =~= flatten(raw));
    if let Some(p) = find_duplicate_pid(&pool) {
        return Err(BuildError::DuplicatePid(p));
    }
    if let Some(p) = find_missing_parent(&pool) {
        return Err(BuildError::MissingParent(p));
    }
    let ghost raw_pool = pool@;
    let top = build_forest(None, &mut pool);
    if pool.len() > 0 {
        proof {
            assert(raw_pool.contains(pool@[0]));
        }
        return Err(BuildError::Unreachable(pool[0].pid));
    }
    assert(pool@.to_multiset() =~= Multiset::empty());
    assert(forest_samples(top@).add(Multiset::empty()) =~= forest_samples(top@));
    let total_cpu = subtree_aggregate(0, &top);
    Ok(ProcessSnapshot { top, total_cpu })
}

} // verus!
