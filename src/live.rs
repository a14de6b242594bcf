//! The live tree that the view reads, kept in step with incoming snapshots.
use vstd::prelude::*;
use crate::tree::{ProcessNode, ascending, node_wf, forest_wf, cmd_view, forest_matches, forest_same};
use crate::snapshot::{
    ProcessSnapshot, SnapshotExchange, own_total, node_own_total, lemma_own_total_nonneg,
    lemma_total_cpu_is_sum_of_own_usage,
};
use crate::sync::{ViewEvent, sync_forest, subtree_aggregate, merge_events, lemma_same_sums};
use crate::sampler::ControlSignal;

verus! {

broadcast use {vstd::seq::group_seq_axioms, vstd::std_specs::vec::group_vec_axioms};

/// `n` stands somewhere in the forest `s`, at any depth.
pub open spec fn in_forest(s: Seq<ProcessNode>, n: ProcessNode) -> bool
    decreases s,
{
    exists|i: int| 0 <= i < s.len() && (s[i] == n || in_forest(s[i].children@, n))
}

/// Some node of the forest `s` has pid `pid`.
pub open spec fn has_pid(s: Seq<ProcessNode>, pid: i32) -> bool {
    exists|n: ProcessNode| in_forest(s, n) && n.sample.pid == pid
}

/// In a well-formed forest, every sibling sequence below any node is strictly
/// ascending by pid, and its rows are its positions.
pub proof fn lemma_every_level_sorted_with_contiguous_rows(
    s: Seq<ProcessNode>,
    parent: Option<i32>,
    n: ProcessNode,
)
    requires
        forest_wf(s, parent),
        in_forest(s, n),
    ensures
        ascending(n.children@),
        n.children@.map_values(|c: ProcessNode| c.row as int).to_set() == Set::new(
            |r: int| 0 <= r < n.children@.len(),
        ),
    decreases s,
{
    let i = choose|i: int| 0 <= i < s.len() && (s[i] == n || in_forest(s[i].children@, n));
    assert(node_wf(s[i], parent));
    if s[i] == n {
        lemma_rows_are_positions(n.children@, Some(n.sample.pid));
    } else {
        lemma_every_level_sorted_with_contiguous_rows(s[i].children@, Some(s[i].sample.pid), n);
    }
}

/// The rows of a well-formed sibling sequence of length `n` are exactly
/// `0, ..., n - 1`.
pub proof fn lemma_rows_are_positions(s: Seq<ProcessNode>, parent: Option<i32>)
    requires
        forest_wf(s, parent),
    ensures
        s.map_values(|c: ProcessNode| c.row as int).to_set() == Set::new(
            |r: int| 0 <= r < s.len(),
        ),
{
    let rows = s.map_values(|c: ProcessNode| c.row as int);
    assert forall|r: int| rows.to_set().contains(r) <==> 0 <= r < s.len() by {
        if 0 <= r < s.len() {
            assert(rows[r] == r);
            assert(rows.contains(r));
        }
        if rows.contains(r) {
            let k = choose|k: int| 0 <= k < rows.len() && rows[k] == r;
            assert(s[k].row == k);
        }
    }
    assert(rows.to_set() =~= Set::new(|r: int| 0 <= r < s.len()));
}

/// Depth-first search of the forest for the node with pid `pid`.
pub fn find_node(s: &Vec<ProcessNode>, pid: i32) -> (r: Option<&ProcessNode>)
    ensures
        r is Some ==> r->0.sample.pid == pid && in_forest(s@, *r->0),
        r is None ==> !has_pid(s@, pid),
    decreases s@,
{
    let mut i: usize = 0;
    while i < s.len()
        invariant
            i <= s.len(),
            forall|k: int| 0 <= k < i ==> (#[trigger] s@[k]).sample.pid != pid,
            forall|k: int| 0 <= k < i ==> !has_pid((#[trigger] s@[k]).children@, pid),
        decreases s.len() - i,
    {
        if s[i].sample.pid == pid {
            return Some(&s[i]);
        }
        proof {
            assert(decreases_to!(s@ => s@[i as int].children@));
        }
        match find_node(&s[i].children, pid) {
            Some(n) => {
                return Some(n);
            },
            None => {},
        }
        i += 1;
    }
    proof {
        assert forall|n: ProcessNode| #[trigger] in_forest(s@, n) implies n.sample.pid != pid by {
            let k = choose|k: int|
                0 <= k < s@.len() && (s@[k] == n || in_forest(s@[k].children@, n));
            assert(!has_pid(s@[k].children@, pid));
        }
    }
    None
}

/// Relies on `<[String]>::join`: the parts with one space between each two.
#[verifier::external_body]
fn join_with_spaces(parts: &Vec<String>) -> (r: String)
    ensures
        r@ == spaced(cmd_view(parts@)),
{
    parts.join(" ")
}

/// The parts, in order, with one space between each two.
pub open spec fn spaced(parts: Seq<Seq<char>>) -> Seq<char>
    decreases parts.len(),
{
    if parts.len() == 0 {
        Seq::empty()
    } else if parts.len() == 1 {
        parts[0]
    } else {
        spaced(parts.subrange(0, parts.len() - 1)) + seq![' '] + parts[parts.len() - 1]
    }
}

/// `100 * usage / total` in whole percent, rounded down and clamped to `u8`;
/// zero when the total is zero. Rounding down keeps the top-level
/// percentages of a snapshot from adding up to more than 100.
pub open spec fn percentage_spec(usage: u64, total: u64) -> int {
    if total == 0 {
        0
    } else if (100 * usage) as int / total as int > 255 {
        255
    } else {
        (100 * usage) as int / total as int
    }
}

/// The share of `total` that `usage` makes, as `percentage_spec` says.
pub fn percentage(usage: u64, total: u64) -> (r: u8)
    ensures
        r == percentage_spec(usage, total),
{
    if total == 0 {
        return 0;
    }
    let p: u128 = (usage as u128) * 100 / (total as u128);
    if p > 255 {
        255
    } else {
        p as u8
    }
}

/// Sum of the percentages of the members of `s` (not of their children)
/// against `total`.
pub open spec fn percent_sum(s: Seq<ProcessNode>, total: u64) -> int
    decreases s.len(),
{
    if s.len() == 0 {
        0
    } else {
        percent_sum(s.subrange(0, s.len() - 1), total) + percentage_spec(
            s[s.len() - 1].sample.cpu_usage,
            total,
        )
    }
}

/// Sum of the own CPU usage of the members of `s` (not of their children).
pub open spec fn own_sum(s: Seq<ProcessNode>) -> int
    decreases s.len(),
{
    if s.len() == 0 {
        0
    } else {
        own_sum(s.subrange(0, s.len() - 1)) + s[s.len() - 1].sample.cpu_usage
    }
}

proof fn lemma_own_sum_at_most_own_total(s: Seq<ProcessNode>)
    ensures
        0 <= own_sum(s) <= own_total(s),
    decreases s.len(),
{
    if s.len() > 0 {
        let last = s[s.len() - 1];
        lemma_own_sum_at_most_own_total(s.subrange(0, s.len() - 1));
        lemma_own_total_nonneg(last.children@);
        assert(node_own_total(last) == last.sample.cpu_usage + own_total(last.children@));
    }
}

proof fn lemma_percent_sum_zero_total(s: Seq<ProcessNode>)
    ensures
        percent_sum(s, 0) == 0,
    decreases s.len(),
{
    if s.len() > 0 {
        lemma_percent_sum_zero_total(s.subrange(0, s.len() - 1));
    }
}

proof fn lemma_percent_sum_bound(s: Seq<ProcessNode>, total: u64)
    requires
        total > 0,
    ensures
        0 <= percent_sum(s, total),
        percent_sum(s, total) * total <= 100 * own_sum(s),
    decreases s.len(),
{
    if s.len() > 0 {
        let init = s.subrange(0, s.len() - 1);
        let c = s[s.len() - 1].sample.cpu_usage;
        let p = percentage_spec(c, total);
        let a = percent_sum(init, total);
        lemma_percent_sum_bound(init, total);
        let x = (100 * c) as int;
        let q = x / (total as int);
        vstd::arithmetic::div_mod::lemma_fundamental_div_mod(x, total as int);
        vstd::arithmetic::div_mod::lemma_mod_bound(x, total as int);
        assert(q * total <= x) by (nonlinear_arith)
            requires
                x == total * q + x % (total as int),
                0 <= x % (total as int),
        ;
        assert(0 <= q) by (nonlinear_arith)
            requires
                x >= 0,
                total > 0,
                x == total * q + x % (total as int),
                x % (total as int) < total,
        ;
        assert(p <= q);
        assert(p * total <= q * total) by (nonlinear_arith)
            requires
                p <= q,
                total > 0,
        ;
        assert((a + p) * total == a * total + p * total) by (nonlinear_arith);
    }
}

/// The CPU percentages of the top-level rows of a well-formed snapshot add
/// up to at most 100, as long as its total CPU fits in `u64`.
pub proof fn lemma_top_percentages_at_most_100(snap: ProcessSnapshot)
    requires
        snap.wf(),
        own_total(snap.top@) <= u64::MAX,
    ensures
        percent_sum(snap.top@, snap.total_cpu) <= 100,
{
    lemma_total_cpu_is_sum_of_own_usage(snap);
    lemma_own_sum_at_most_own_total(snap.top@);
    lemma_own_total_nonneg(snap.top@);
    let t = snap.total_cpu;
    if t == 0 {
        lemma_percent_sum_zero_total(snap.top@);
    } else {
        lemma_percent_sum_bound(snap.top@, t);
        let ps = percent_sum(snap.top@, t);
        assert(ps <= 100) by (nonlinear_arith)
            requires
                ps * t <= 100 * own_sum(snap.top@),
                own_sum(snap.top@) <= t,
                t > 0,
        ;
    }
}

/// The consumer's side of the monitor: the live tree that the view reads, and
/// whether sampling is switched on.
pub struct Processes {
    p: ProcessSnapshot,
    active: bool,
}

impl Processes {
    /// The live tree.
    pub closed spec fn tree(&self) -> ProcessSnapshot {
        self.p
    }

    pub closed spec fn is_active(&self) -> bool {
        self.active
    }

    pub open spec fn wf(&self) -> bool {
        self.tree().wf()
    }

    /// The node that `item` names in the live tree.
    pub open spec fn holds(&self, item: i32, n: ProcessNode) -> bool {
        in_forest(self.tree().top@, n) && n.sample.pid == item
    }

    /// An empty live tree with sampling switched off.
    pub fn new() -> (r: Processes)
        ensures
            r.wf(),
            r.tree().top@.len() == 0,
            r.tree().total_cpu == 0,
            !r.is_active(),
    {
        Processes { p: ProcessSnapshot::empty(), active: false }
    }

    pub fn active(&self) -> (r: bool)
        ensures
            r == self.is_active(),
    {
        self.active
    }

    /// Switches sampling on or off, and returns the signal to send to the
    /// sampler, or none when the mode does not change.
    pub fn set_active(&mut self, active: bool) -> (r: Option<ControlSignal>)
        ensures
            final(self).is_active() == active,
            final(self).tree() == old(self).tree(),
            r == (if old(self).is_active() == active {
                None
            } else if active {
                Some(ControlSignal::Activate)
            } else {
                Some(ControlSignal::Deactivate)
            }),
    {
        if self.active == active {
            return None;
        }
        self.active = active;
        if active {
            Some(ControlSignal::Activate)
        } else {
            Some(ControlSignal::Deactivate)
        }
    }

    /// Replaces the live tree by `new`, or merges `new` into it. An empty live
    /// tree is replaced whole, with one `Reset`; otherwise the top level is
    /// merged like any sibling sequence.
    pub fn apply(&mut self, new: ProcessSnapshot) -> (r: Vec<ViewEvent>)
        requires
            old(self).wf(),
            new.wf(),
        ensures
            final(self).wf(),
            final(self).is_active() == old(self).is_active(),
            old(self).tree().top@.len() == 0 ==> final(self).tree() == new && r@ == seq![
                ViewEvent::Reset,
            ],
            old(self).tree().top@.len() > 0 ==> forest_matches(final(self).tree().top@, new.top@)
                && r@ == merge_events(None, old(self).tree().top@, new.top@, 0),
            old(self).tree().top@.len() > 0 && forest_same(old(self).tree().top@, new.top@)
                ==> r@.len() == 0 && forest_same(final(self).tree().top@, new.top@)
                && final(self).tree().total_cpu == new.total_cpu,
    {
        let mut events: Vec<ViewEvent> = Vec::new();
        if self.p.top.len() == 0 {
            self.p = new;
            events.push(ViewEvent::Reset);
            return events;
        }
        let mut live_top: Vec<ProcessNode> = Vec::new();
        core::mem::swap(&mut live_top, &mut self.p.top);
        let ghost same = forest_same(live_top@, new.top@);
        let ProcessSnapshot { top: new_top, total_cpu: _ } = new;
        let top = sync_forest(None, live_top, new_top, &mut events);
        let total_cpu = subtree_aggregate(0, &top);
        proof {
            if same {
                lemma_same_sums(top@, new.top@);
            }
        }
        self.p = ProcessSnapshot { top, total_cpu };
        events
    }

    /// Whether new data can be fetched: only at the top, only while active,
    /// and only when a snapshot waits.
    pub fn can_fetch_more(&self, item: Option<i32>, exchange: &SnapshotExchange) -> (r: bool)
        ensures
            r == (item is None && self.is_active() && exchange.pending() is Some),
    {
        if item.is_some() || !self.active {
            return false;
        }
        exchange.has_pending()
    }

    /// Takes the waiting snapshot, if fetching is allowed, and applies it.
    pub fn fetch_more(&mut self, item: Option<i32>, exchange: &mut SnapshotExchange) -> (r: Vec<
        ViewEvent,
    >)
        requires
            old(self).wf(),
            old(exchange).wf(),
        ensures
            final(self).wf(),
            final(exchange).wf(),
            final(self).is_active() == old(self).is_active(),
            !(item is None && old(self).is_active() && old(exchange).pending() is Some) ==> {
                &&& final(self).tree() == old(self).tree()
                &&& final(exchange).pending() == old(exchange).pending()
                &&& r@.len() == 0
            },
            item is None && old(self).is_active() && old(exchange).pending() is Some ==> {
                let new = old(exchange).pending()->0;
                &&& final(exchange).pending() is None
                &&& old(self).tree().top@.len() == 0 ==> final(self).tree() == new && r@ == seq![
                    ViewEvent::Reset,
                ]
                &&& old(self).tree().top@.len() > 0 ==> forest_matches(
                    final(self).tree().top@,
                    new.top@,
                ) && r@ == merge_events(None, old(self).tree().top@, new.top@, 0)
                &&& old(self).tree().top@.len() > 0 && forest_same(old(self).tree().top@, new.top@)
                    ==> r@.len() == 0 && forest_same(final(self).tree().top@, new.top@)
                    && final(self).tree().total_cpu == new.total_cpu
            },
    {
        if item.is_some() || !self.active {
            return Vec::new();
        }
        match exchange.try_take() {
            Some(new) => self.apply(new),
            None => Vec::new(),
        }
    }
    /// The node that `item` names.
    fn node(&self, item: i32) -> (r: &ProcessNode)
        requires
            has_pid(self.tree().top@, item),
        ensures
            self.holds(item, *r),
    {
        match find_node(&self.p.top, item) {
            Some(n) => n,
            None => {
                proof {
                    assert(false);
                }
                &self.p.top[0]
            },
        }
    }

    /// The number of children of `item`, or of top-level rows when `item` is
    /// none.
    pub fn row_count(&self, item: Option<i32>) -> (r: usize)
        requires
            item is Some ==> has_pid(self.tree().top@, item->0),
        ensures
            item is None ==> r == self.tree().top@.len(),
            item is Some ==> exists|n: ProcessNode|
                self.holds(item->0, n) && r == n.children@.len(),
    {
        match item {
            None => self.p.top.len(),
            Some(pid) => self.node(pid).children.len(),
        }
    }

    /// The pid at `row` among the children of `item`, or among the top-level
    /// rows when `item` is none.
    pub fn index(&self, item: Option<i32>, row: usize) -> (r: i32)
        requires
            item is None ==> row < self.tree().top@.len(),
            item is Some ==> has_pid(self.tree().top@, item->0) && forall|n: ProcessNode|
                self.holds(item->0, n) ==> row < n.children@.len(),
        ensures
            item is None ==> r == self.tree().top@[row as int].sample.pid,
            item is Some ==> exists|n: ProcessNode|
                self.holds(item->0, n) && r == n.children@[row as int].sample.pid,
    {
        match item {
            None => self.p.top[row].sample.pid,
            Some(pid) => self.node(pid).children[row].sample.pid,
        }
    }

    /// The parent pid of `item`, none at the top level.
    pub fn parent(&self, item: i32) -> (r: Option<i32>)
        requires
            has_pid(self.tree().top@, item),
        ensures
            exists|n: ProcessNode| self.holds(item, n) && r == n.sample.parent,
    {
        self.node(item).sample.parent
    }

    /// The position of `item` among its siblings.
    pub fn row(&self, item: i32) -> (r: usize)
        requires
            has_pid(self.tree().top@, item),
        ensures
            exists|n: ProcessNode| self.holds(item, n) && r == n.row,
    {
        self.node(item).row
    }

    pub fn pid(&self, item: i32) -> (r: u32)
        requires
            has_pid(self.tree().top@, item),
        ensures
            r == item as u32,
    {
        self.node(item).sample.pid as u32
    }

    pub fn uid(&self, item: i32) -> (r: u32)
        requires
            has_pid(self.tree().top@, item),
        ensures
            exists|n: ProcessNode| self.holds(item, n) && r == n.sample.uid,
    {
        self.node(item).sample.uid
    }

    /// The CPU usage shown for `item`, in hundredths of a percent.
    pub fn cpu_usage(&self, item: i32) -> (r: u64)
        requires
            has_pid(self.tree().top@, item),
        ensures
            exists|n: ProcessNode| self.holds(item, n) && r == n.sample.cpu_usage,
    {
        self.node(item).sample.cpu_usage
    }

    /// The share of the total CPU that `item` uses, in whole percent.
    pub fn cpu_percentage(&self, item: i32) -> (r: u8)
        requires
            has_pid(self.tree().top@, item),
        ensures
            exists|n: ProcessNode|
                self.holds(item, n) && r == percentage_spec(
                    n.sample.cpu_usage,
                    self.tree().total_cpu,
                ),
    {
        percentage(self.node(item).sample.cpu_usage, self.p.total_cpu)
    }

    pub fn memory(&self, item: i32) -> (r: u64)
        requires
            has_pid(self.tree().top@, item),
        ensures
            exists|n: ProcessNode| self.holds(item, n) && r == n.sample.memory,
    {
        self.node(item).sample.memory
    }

    pub fn name(&self, item: i32) -> (r: &str)
        requires
            has_pid(self.tree().top@, item),
        ensures
            exists|n: ProcessNode| self.holds(item, n) && r@ == n.sample.name@,
    {
        self.node(item).sample.name.as_str()
    }

    /// The command line of `item`, its tokens joined by spaces.
    pub fn cmd(&self, item: i32) -> (r: String)
        requires
            has_pid(self.tree().top@, item),
        ensures
            exists|n: ProcessNode|
                self.holds(item, n) && r@ == spaced(cmd_view(n.sample.cmd@)),
    {
        join_with_spaces(&self.node(item).sample.cmd)
    }

    /// Whether `item` names a process of the live tree.
    pub fn contains(&self, item: i32) -> (r: bool)
        ensures
            r == has_pid(self.tree().top@, item),
    {
        find_node(&self.p.top, item).is_some()
    }
}

} // verus!
