//! The sync engine: turns a live sibling sequence into the shape of an
//! incoming one by row-level removals, insertions and updates.
use vstd::prelude::*;
use crate::cpu::{approx_eq_spec, cpu_approx_eq};
use crate::tree::{
    ProcessNode, ProcessSample, sat, sum_aggregates, node_wf, forest_wf, cmd_view,
    node_matches, forest_matches, node_same, forest_same, lemma_node_matches_refl,
};

verus! {

broadcast use {vstd::seq::group_seq_axioms, vstd::std_specs::vec::group_vec_axioms};

/// A row-level mutation announced to the view.
#[derive(PartialEq, Eq, Structural, Clone, Copy, Debug)]
pub enum ViewEvent {
    /// A row appears under `parent` at `row`.
    Insert { parent: Option<i32>, row: usize, pid: i32 },
    /// The row under `parent` at `row` goes away, with its whole subtree.
    Remove { parent: Option<i32>, row: usize, pid: i32 },
    /// The fields shown for `pid` changed.
    DataChanged { pid: i32 },
    /// The whole tree was replaced.
    Reset,
}

/// `old` is a prefix of `new`.
pub open spec fn extends(new: Seq<ViewEvent>, old: Seq<ViewEvent>) -> bool {
    &&& old.len() <= new.len()
    &&& forall|t: int| 0 <= t < old.len() ==> new[t] == old[t]
}

/// The CPU usage a sync leaves on a live node: its own, unless the incoming
/// one is beyond tolerance.
pub open spec fn merged_cpu(l: ProcessSample, i: ProcessSample) -> u64 {
    if approx_eq_spec(l.cpu_usage, i.cpu_usage) {
        l.cpu_usage
    } else {
        i.cpu_usage
    }
}

/// Some field that a sync reconciles differs between the live and the
/// incoming sample.
pub open spec fn fields_changed(l: ProcessSample, i: ProcessSample) -> bool {
    ||| l.name@ != i.name@
    ||| !approx_eq_spec(l.cpu_usage, i.cpu_usage)
    ||| cmd_view(l.cmd@) != cmd_view(i.cmd@)
    ||| l.exe@ != i.exe@
    ||| l.memory != i.memory
}

/// The aggregate a sync leaves on the live node `l` matched with `i`.
pub open spec fn merged_aggregate(l: ProcessNode, i: ProcessNode) -> int
    decreases i, 0int, 0int,
{
    sat(merged_cpu(l.sample, i.sample) + merged_sum(l.children@, i.children@))
}

/// The sum of the aggregates of the siblings a sync leaves from the live
/// siblings `live` and the incoming siblings `inc`.
pub open spec fn merged_sum(live: Seq<ProcessNode>, inc: Seq<ProcessNode>) -> int
    decreases inc, live.len(), 1int,
{
    if inc.len() == 0 {
        0
    } else if live.len() > 0 && live[0].sample.pid < inc[0].sample.pid {
        merged_sum(live.subrange(1, live.len() as int), inc)
    } else if live.len() == 0 || live[0].sample.pid > inc[0].sample.pid {
        inc[0].aggregate_cpu + merged_sum(live, inc.subrange(1, inc.len() as int))
    } else {
        merged_aggregate(live[0], inc[0]) + merged_sum(
            live.subrange(1, live.len() as int),
            inc.subrange(1, inc.len() as int),
        )
    }
}

/// The events of a sync of one matched node: those of its children, then one
/// `DataChanged` when a field moved, or when the recomputed aggregate moved
/// beyond tolerance from the aggregate the live node showed before (the value
/// the view displays, so the one a change is measured against).
pub open spec fn node_events(l: ProcessNode, i: ProcessNode) -> Seq<ViewEvent>
    decreases i, 0int, 0int,
{
    merge_events(Some(l.sample.pid), l.children@, i.children@, 0) + if fields_changed(
        l.sample,
        i.sample,
    ) || !approx_eq_spec(l.aggregate_cpu, merged_aggregate(l, i) as u64) {
        seq![ViewEvent::DataChanged { pid: l.sample.pid }]
    } else {
        Seq::empty()
    }
}

/// The events of merging the live siblings `live` with the incoming siblings
/// `inc` under `parent`, where `row` rows before them are already merged: a
/// live pid that comes first is removed, an incoming pid that comes first is
/// inserted, and equal pids are synced.
pub open spec fn merge_events(
    parent: Option<i32>,
    live: Seq<ProcessNode>,
    inc: Seq<ProcessNode>,
    row: int,
) -> Seq<ViewEvent>
    decreases inc, live.len(), 1int,
{
    if inc.len() == 0 && live.len() == 0 {
        Seq::empty()
    } else if inc.len() == 0 || (live.len() > 0 && live[0].sample.pid < inc[0].sample.pid) {
        seq![ViewEvent::Remove { parent, row: row as usize, pid: live[0].sample.pid }]
            + merge_events(parent, live.subrange(1, live.len() as int), inc, row)
    } else if live.len() == 0 || live[0].sample.pid > inc[0].sample.pid {
        seq![ViewEvent::Insert { parent, row: row as usize, pid: inc[0].sample.pid }]
            + merge_events(parent, live, inc.subrange(1, inc.len() as int), row + 1)
    } else {
        node_events(live[0], inc[0]) + merge_events(
            parent,
            live.subrange(1, live.len() as int),
            inc.subrange(1, inc.len() as int),
            row + 1,
        )
    }
}

/// Element-wise equality of two command lines.
pub fn cmd_equal(a: &Vec<String>, b: &Vec<String>) -> (r: bool)
    ensures
        r == (cmd_view(a@) == cmd_view(b@)),
{
    if a.len() != b.len() {
        assert(cmd_view(a@).len() != cmd_view(b@).len());
        return false;
    }
    let mut i: usize = 0;
    while i < a.len()
        invariant
            a.len() == b.len(),
            i <= a.len(),
            forall|k: int| 0 <= k < i ==> a@[k]@ == b@[k]@,
        decreases a.len() - i,
    {
        if !(a[i] == b[i]) {
            assert(cmd_view(a@)[i as int] != cmd_view(b@)[i as int]);
            return false;
        }
        i += 1;
    }
    assert(cmd_view(a@) =~= cmd_view(b@));
    true
}

/// A node's own usage plus the aggregates of its children, clamped.
pub fn subtree_aggregate(own: u64, children: &Vec<ProcessNode>) -> (r: u64)
    ensures
        r == sat(own + sum_aggregates(children@)),
{
    let mut total: u64 = own;
    let mut i: usize = 0;
    while i < children.len()
        invariant
            i <= children.len(),
            total == sat(own + sum_aggregates(children@.subrange(0, i as int))),
        decreases children.len() - i,
    {
        assert(children@.subrange(0, i + 1).subrange(0, i as int) =~= children@.subrange(
            0,
            i as int,
        ));
        total = total.saturating_add(children[i].aggregate_cpu);
        i += 1;
    }
    assert(children@.subrange(0, i as int) =~= children@);
    total
}

/// Reconciles one live node with the incoming node of the same pid: its
/// fields, then its children, then its aggregate. Emits one `DataChanged` for
/// the node after its children's events when a field or the aggregate moved.
fn sync_node(
    live: ProcessNode,
    incoming: ProcessNode,
    row: usize,
    events: &mut Vec<ViewEvent>,
) -> (r: ProcessNode)
    requires
        node_wf(live, incoming.sample.parent),
        node_wf(incoming, incoming.sample.parent),
        live.sample.pid == incoming.sample.pid,
    ensures
        node_wf(r, incoming.sample.parent),
        r.row == row,
        node_matches(r, incoming),
        extends(final(events)@, old(events)@),
        node_same(live, incoming) ==> node_same(r, incoming) && final(events)@ == old(events)@,
        final(events)@ == old(events)@ + node_events(live, incoming),
        r.sample.cpu_usage == merged_cpu(live.sample, incoming.sample),
        r.sample.uid == incoming.sample.uid,
        r.aggregate_cpu == merged_aggregate(live, incoming),
    decreases incoming, 0int,
{
    let ghost same = node_same(live, incoming);
    let ghost ev0 = events@;
    let ghost moved = fields_changed(live.sample, incoming.sample);
    let ProcessNode { row: _, sample: mut s, aggregate_cpu: old_aggregate, children: live_children } =
        live;
    let ProcessNode { row: _, sample: inc, aggregate_cpu: _, children: inc_children } = incoming;
    let ProcessSample {
        pid: _,
        parent: _,
        name: inc_name,
        exe: inc_exe,
        cmd: inc_cmd,
        uid: inc_uid,
        memory: inc_memory,
        cpu_usage: inc_cpu,
    } = inc;
    let mut changed = false;
    if !(s.name == inc_name) {
        s.name = inc_name;
        changed = true;
    }
    if !cpu_approx_eq(s.cpu_usage, inc_cpu) {
        s.cpu_usage = inc_cpu;
        changed = true;
    }
    if !cmd_equal(&s.cmd, &inc_cmd) {
        s.cmd = inc_cmd;
        changed = true;
    }
    if !(s.exe == inc_exe) {
        s.exe = inc_exe;
        changed = true;
    }
    if s.memory != inc_memory {
        s.memory = inc_memory;
        changed = true;
    }
    s.uid = inc_uid;
    assert(changed == moved);
    let pid = s.pid;
    let ghost ev1 = events@;
    let children = sync_forest(Some(pid), live_children, inc_children, events);
    let aggregate = subtree_aggregate(s.cpu_usage, &children);
    if !cpu_approx_eq(old_aggregate, aggregate) {
        changed = true;
    }
    proof {
        if same {
            lemma_same_sums(children@, incoming.children@);
        }
    }
    if changed {
        events.push(ViewEvent::DataChanged { pid });
    }
    assert(events@ =~= ev0 + node_events(live, incoming));
    ProcessNode { row, sample: s, aggregate_cpu: aggregate, children }
}

/// Sibling sequences that are the same have the same aggregate sum.
pub proof fn lemma_same_sums(a: Seq<ProcessNode>, b: Seq<ProcessNode>)
    requires
        forest_same(a, b),
    ensures
        sum_aggregates(a) == sum_aggregates(b),
    decreases a.len(),
{
    if a.len() > 0 {
        let k = a.len() - 1;
        assert(node_same(a[k], b[k]));
        let a2 = a.subrange(0, k);
        let b2 = b.subrange(0, k);
        assert forall|i: int| 0 <= i < b2.len() implies node_same(a2[i], #[trigger] b2[i]) by {
            assert(node_same(a[i], b[i]));
        }
        lemma_same_sums(a2, b2);
    }
}

/// Merges the live siblings under `parent` with the incoming ones, both in
/// ascending pid order. A live pid missing from the incoming sequence is
/// removed, an incoming pid missing from the live one is inserted with its
/// subtree, and a pid in both is reconciled in place. Each event's row is the
/// position at which the view holds the row when the event is applied.
pub fn sync_forest(
    parent: Option<i32>,
    live: Vec<ProcessNode>,
    incoming: Vec<ProcessNode>,
    events: &mut Vec<ViewEvent>,
) -> (r: Vec<ProcessNode>)
    requires
        forest_wf(live@, parent),
        forest_wf(incoming@, parent),
    ensures
        forest_wf(r@, parent),
        forest_matches(r@, incoming@),
        extends(final(events)@, old(events)@),
        forest_same(live@, incoming@) ==> forest_same(r@, incoming@) && final(events)@ == old(
            events,
        )@,
        final(events)@ == old(events)@ + merge_events(parent, live@, incoming@, 0),
        sum_aggregates(r@) == merged_sum(live@, incoming@),
    decreases incoming@, 1int,
{
    let ghost orig_live = live@;
    let ghost orig_inc = incoming@;
    let ghost ev0 = events@;
    let ghost same = forest_same(live@, incoming@);
    let mut live = live;
    let mut inc = incoming;
    let mut out: Vec<ProcessNode> = Vec::new();
    let ghost mut i: int = 0;
    while live.len() > 0 || inc.len() > 0
        invariant
            0 <= i <= orig_live.len(),
            out.len() <= orig_inc.len(),
            live@ == orig_live.subrange(i, orig_live.len() as int),
            inc@ == orig_inc.subrange(out.len() as int, orig_inc.len() as int),
            orig_inc == incoming@,
            forest_wf(orig_live, parent),
            forest_wf(orig_inc, parent),
            forall|k: int|
                0 <= k < out.len() ==> {
                    &&& (#[trigger] out@[k]).row == k
                    &&& node_wf(out@[k], parent)
                    &&& node_matches(out@[k], orig_inc[k])
                    &&& out@[k].sample.pid == orig_inc[k].sample.pid
                },
            extends(events@, ev0),
            ev0 + merge_events(parent, orig_live, orig_inc, 0) == events@ + merge_events(
                parent,
                live@,
                inc@,
                out.len() as int,
            ),
            sum_aggregates(out@) + merged_sum(live@, inc@) == merged_sum(orig_live, orig_inc),
            same == forest_same(orig_live, orig_inc),
            same ==> i == out.len() && events@ == ev0 && forall|k: int|
                0 <= k < out.len() ==> node_same(#[trigger] out@[k], orig_inc[k]),
        decreases live.len() + inc.len(),
    {
        if inc.len() == 0 || (live.len() > 0 && live[0].sample.pid < inc[0].sample.pid) {
            proof {
                if same {
                    assert(node_same(orig_live[i], orig_inc[i]));
                }
            }
            let ghost ev_before = events@;
            let ghost l_before = live@;
            let gone = live.remove(0);
            events.push(ViewEvent::Remove { parent, row: out.len(), pid: gone.sample.pid });
            proof {
                i = i + 1;
                assert(live@ =~= l_before.subrange(1, l_before.len() as int));
                assert(events@ + merge_events(parent, live@, inc@, out.len() as int) =~= ev_before
                    + merge_events(parent, l_before, inc@, out.len() as int));
            }
        } else if live.len() == 0 || live[0].sample.pid > inc[0].sample.pid {
            proof {
                if same {
                    assert(node_same(orig_live[i], orig_inc[i]));
                }
            }
            let ghost ev_before = events@;
            let ghost i_before = inc@;
            let ghost out_before = out@;
            let mut n = inc.remove(0);
            events.push(ViewEvent::Insert { parent, row: out.len(), pid: n.sample.pid });
            proof {
                lemma_node_matches_refl(n);
                assert(node_wf(orig_inc[out.len() as int], parent));
            }
            n.row = out.len();
            out.push(n);
            proof {
                assert(inc@ =~= i_before.subrange(1, i_before.len() as int));
                assert(events@ + merge_events(parent, live@, inc@, out.len() as int) =~= ev_before
                    + merge_events(parent, live@, i_before, out_before.len() as int));
                assert(out@.subrange(0, out@.len() - 1) =~= out_before);
            }
        } else {
            let ghost ev_before = events@;
            let ghost i_before = inc@;
            let ghost l_before = live@;
            let ghost out_before = out@;
            let l = live.remove(0);
            let n = inc.remove(0);
            proof {
                assert(node_wf(orig_live[i], parent));
                assert(node_wf(orig_inc[out.len() as int], parent));
                if same {
                    assert(node_same(orig_live[i], orig_inc[i]));
                }
                assert(n == orig_inc[out.len() as int]);
                assert(decreases_to!(incoming@ => n));
            }
            let r = sync_node(l, n, out.len(), events);
            out.push(r);
            proof {
                i = i + 1;
                assert(inc@ =~= i_before.subrange(1, i_before.len() as int));
                assert(live@ =~= l_before.subrange(1, l_before.len() as int));
                assert(events@ + merge_events(parent, live@, inc@, out.len() as int) =~= ev_before
                    + merge_events(parent, l_before, i_before, out_before.len() as int));
                assert(out@.subrange(0, out@.len() - 1) =~= out_before);
            }
        }
    }
    out
}

} // verus!
