use process_tree::builder::{build_snapshot, check_process_hierarchy, BuildError, RawProcess};
use process_tree::cpu::cpu_approx_eq;
use process_tree::live::{percentage, Processes};
use process_tree::sampler::{first_action, sampler_step, ControlSignal, SamplerAction, Wakeup};
use process_tree::snapshot::{ProcessSnapshot, SnapshotExchange};
use process_tree::sync::ViewEvent;
use process_tree::tree::ProcessSample;

fn sample(pid: i32, parent: Option<i32>, cpu: u64) -> ProcessSample {
    ProcessSample {
        pid,
        parent,
        name: format!("proc{}", pid),
        exe: format!("/bin/proc{}", pid),
        cmd: vec![format!("proc{}", pid), "--flag".to_string()],
        uid: 1000,
        memory: 4096,
        cpu_usage: cpu,
    }
}

fn raw(pid: i32, parent: Option<i32>, cpu: u64) -> RawProcess {
    RawProcess { sample: sample(pid, parent, cpu), tasks: Vec::new() }
}

/// A root process 1 with the given children, each with its cpu usage.
fn tree_of(children: &[(i32, u64)]) -> ProcessSnapshot {
    let mut list = vec![raw(1, None, 100)];
    for &(pid, cpu) in children {
        list.push(raw(pid, Some(1), cpu));
    }
    build_snapshot(list).unwrap()
}

fn active_with(first: ProcessSnapshot) -> (Processes, SnapshotExchange) {
    let mut p = Processes::new();
    assert_eq!(p.set_active(true), Some(ControlSignal::Activate));
    let mut ex = SnapshotExchange::new();
    ex.publish(first);
    assert_eq!(p.fetch_more(None, &mut ex), vec![ViewEvent::Reset]);
    (p, ex)
}

#[test]
fn first_snapshot_resets() {
    let mut p = Processes::new();
    p.set_active(true);
    let mut ex = SnapshotExchange::new();
    ex.publish(tree_of(&[(2, 10), (3, 10), (5, 10)]));
    let events = p.fetch_more(None, &mut ex);
    assert_eq!(events, vec![ViewEvent::Reset]);
    assert_eq!(p.row_count(None), 1);
    assert_eq!(p.row_count(Some(1)), 3);
}

#[test]
fn identical_resync_emits_nothing() {
    let (mut p, mut ex) = active_with(tree_of(&[(2, 10), (3, 20), (5, 30)]));
    ex.publish(tree_of(&[(2, 10), (3, 20), (5, 30)]));
    assert!(p.fetch_more(None, &mut ex).is_empty());
}

#[test]
fn diff_is_one_removal_and_one_insertion() {
    let (mut p, mut ex) = active_with(tree_of(&[(2, 10), (3, 10), (5, 10)]));
    ex.publish(tree_of(&[(2, 10), (4, 10), (5, 10)]));
    let events = p.fetch_more(None, &mut ex);
    assert_eq!(
        events,
        vec![
            ViewEvent::Remove { parent: Some(1), row: 1, pid: 3 },
            ViewEvent::Insert { parent: Some(1), row: 1, pid: 4 },
        ]
    );
    assert_eq!(p.index(Some(1), 0), 2);
    assert_eq!(p.index(Some(1), 1), 4);
    assert_eq!(p.index(Some(1), 2), 5);
    assert_eq!(p.row(4), 1);
    assert_eq!(p.row(5), 2);
}

fn nested(middle: i32) -> ProcessSnapshot {
    build_snapshot(vec![
        raw(1, None, 100),
        raw(2, Some(1), 10),
        raw(middle, Some(1), 10),
        raw(5, Some(1), 10),
        raw(6, Some(5), 10),
        raw(7, Some(5), 10),
    ])
    .unwrap()
}

#[test]
fn unchanged_subtree_gets_no_events() {
    let (mut p, mut ex) = active_with(nested(3));
    ex.publish(nested(4));
    let events = p.fetch_more(None, &mut ex);
    assert_eq!(
        events,
        vec![
            ViewEvent::Remove { parent: Some(1), row: 1, pid: 3 },
            ViewEvent::Insert { parent: Some(1), row: 1, pid: 4 },
        ]
    );
    assert_eq!(p.row_count(Some(5)), 2);
    assert_eq!(p.index(Some(5), 0), 6);
    assert_eq!(p.index(Some(5), 1), 7);
    assert_eq!(p.row(7), 1);
}

#[test]
fn small_cpu_change_is_not_an_update() {
    let (mut p, mut ex) = active_with(tree_of(&[(2, 1000)]));
    ex.publish(tree_of(&[(2, 1005)]));
    assert!(p.fetch_more(None, &mut ex).is_empty());
    assert_eq!(p.cpu_usage(2), 1000);
}

#[test]
fn large_cpu_change_is_an_update() {
    let (mut p, mut ex) = active_with(tree_of(&[(2, 1000)]));
    ex.publish(tree_of(&[(2, 1050)]));
    let events = p.fetch_more(None, &mut ex);
    assert!(events.contains(&ViewEvent::DataChanged { pid: 2 }));
    assert_eq!(p.cpu_usage(2), 1050);
}

#[test]
fn approx_equality_threshold() {
    assert!(cpu_approx_eq(1000, 1005));
    assert!(cpu_approx_eq(1000, 1009));
    assert!(!cpu_approx_eq(1000, 1010));
    assert!(!cpu_approx_eq(1000, 1050));
    assert!(cpu_approx_eq(0, 0));
    assert!(!cpu_approx_eq(0, 1));
}

#[test]
fn exchange_keeps_only_the_last_publish() {
    let mut ex = SnapshotExchange::new();
    assert!(!ex.has_pending());
    ex.publish(tree_of(&[(2, 10)]));
    ex.publish(tree_of(&[(7, 10), (8, 10)]));
    let taken = ex.try_take().unwrap();
    assert_eq!(taken.top.len(), 1);
    assert_eq!(taken.top[0].children.len(), 2);
    assert_eq!(taken.top[0].children[0].sample.pid, 7);
    assert!(ex.try_take().is_none());
}

#[test]
fn total_cpu_is_sum_of_all_nodes() {
    let list = vec![
        RawProcess {
            sample: sample(1, None, 100),
            tasks: vec![raw(11, Some(1), 50), raw(12, Some(1), 25)],
        },
        raw(2, Some(1), 300),
        raw(3, None, 525),
    ];
    let snap = build_snapshot(list).unwrap();
    assert_eq!(snap.total_cpu, 1000);
    assert_eq!(snap.top[0].aggregate_cpu, 475);
    assert_eq!(snap.top[1].aggregate_cpu, 525);
    let mut p = Processes::new();
    p.set_active(true);
    let mut ex = SnapshotExchange::new();
    ex.publish(snap);
    p.fetch_more(None, &mut ex);
    let top_sum: u32 = (0..p.row_count(None))
        .map(|r| p.cpu_percentage(p.index(None, r)) as u32)
        .sum();
    assert!(top_sum <= 100);
    assert_eq!(p.cpu_percentage(3), 52);
    assert_eq!(p.cpu_percentage(2), 30);
}

#[test]
fn percentage_values() {
    assert_eq!(percentage(25, 100), 25);
    assert_eq!(percentage(1, 3), 33);
    assert_eq!(percentage(5, 0), 0);
    assert_eq!(percentage(1000, 1), 255);
}

#[test]
fn builder_sorts_and_numbers_rows() {
    let list = vec![raw(9, None, 1), raw(4, None, 1), raw(7, Some(4), 1), raw(6, Some(4), 1)];
    let snap = build_snapshot(list).unwrap();
    let pids: Vec<i32> = snap.top.iter().map(|n| n.sample.pid).collect();
    assert_eq!(pids, vec![4, 9]);
    assert_eq!(snap.top[1].row, 1);
    let kids: Vec<(i32, usize)> =
        snap.top[0].children.iter().map(|n| (n.sample.pid, n.row)).collect();
    assert_eq!(kids, vec![(6, 0), (7, 1)]);
}

#[test]
fn builder_rejects_corrupt_nesting() {
    let list = vec![RawProcess { sample: sample(1, None, 1), tasks: vec![raw(2, Some(3), 1)] }];
    assert!(!check_process_hierarchy(None, &list));
    assert_eq!(build_snapshot(list).err(), Some(BuildError::CorruptHierarchy));
}

#[test]
fn builder_rejects_duplicate_siblings() {
    let list = vec![raw(1, None, 1), raw(1, None, 2)];
    assert_eq!(build_snapshot(list).err(), Some(BuildError::DuplicatePid(1)));
}

#[test]
fn builder_rejects_missing_parent() {
    let list = vec![raw(1, None, 1), raw(2, Some(40), 2)];
    assert_eq!(build_snapshot(list).err(), Some(BuildError::MissingParent(2)));
}

#[test]
fn builder_rejects_parent_cycle() {
    let list = vec![raw(1, None, 1), raw(2, Some(3), 1), raw(3, Some(2), 1)];
    assert_eq!(build_snapshot(list).err(), Some(BuildError::Unreachable(2)));
}

#[test]
fn builder_rejects_duplicate_across_depths() {
    let list = vec![RawProcess { sample: sample(1, None, 1), tasks: vec![raw(1, Some(1), 1)] }];
    assert_eq!(build_snapshot(list).err(), Some(BuildError::DuplicatePid(1)));
}

#[test]
fn empty_enumeration_is_empty_snapshot() {
    let snap = build_snapshot(Vec::new()).unwrap();
    assert!(snap.top.is_empty());
    assert_eq!(snap.total_cpu, 0);
}

#[test]
fn accessors_read_fields() {
    let (p, _ex) = active_with(tree_of(&[(2, 10)]));
    assert_eq!(p.parent(2), Some(1));
    assert_eq!(p.parent(1), None);
    assert_eq!(p.pid(2), 2);
    assert_eq!(p.uid(2), 1000);
    assert_eq!(p.memory(2), 4096);
    assert_eq!(p.name(2), "proc2");
    assert_eq!(p.cmd(2), "proc2 --flag");
    assert!(p.contains(2));
    assert!(!p.contains(99));
}

#[test]
fn fetch_needs_active_and_top_level() {
    let mut p = Processes::new();
    let mut ex = SnapshotExchange::new();
    ex.publish(tree_of(&[(2, 10)]));
    assert!(!p.can_fetch_more(None, &ex));
    assert!(p.fetch_more(None, &mut ex).is_empty());
    assert!(ex.has_pending());
    p.set_active(true);
    assert!(!p.can_fetch_more(Some(1), &ex));
    assert!(p.can_fetch_more(None, &ex));
    assert_eq!(p.set_active(true), None);
    assert_eq!(p.set_active(false), Some(ControlSignal::Deactivate));
    assert!(!p.active());
}

#[test]
fn removed_subtree_is_one_event() {
    let (mut p, mut ex) = active_with(build_snapshot(vec![
        raw(1, None, 1),
        raw(2, Some(1), 1),
        raw(3, Some(2), 1),
        raw(4, Some(2), 1),
    ])
    .unwrap());
    ex.publish(build_snapshot(vec![raw(1, None, 1)]).unwrap());
    let events = p.fetch_more(None, &mut ex);
    assert_eq!(
        events,
        vec![ViewEvent::Remove { parent: Some(1), row: 0, pid: 2 }, ViewEvent::DataChanged { pid: 1 }]
    );
    assert_eq!(p.row_count(Some(1)), 0);
}

#[test]
fn sampler_decisions() {
    assert_eq!(first_action(false), SamplerAction::Idle);
    assert_eq!(first_action(true), SamplerAction::SampleThenWait);
    assert_eq!(sampler_step(true, Wakeup::Timeout), (true, SamplerAction::SampleThenWait));
    assert_eq!(sampler_step(false, Wakeup::Timeout), (false, SamplerAction::Idle));
    assert_eq!(
        sampler_step(false, Wakeup::Signal(ControlSignal::Activate)),
        (true, SamplerAction::SampleThenWait)
    );
    assert_eq!(
        sampler_step(true, Wakeup::Signal(ControlSignal::Deactivate)),
        (false, SamplerAction::Idle)
    );
    assert_eq!(sampler_step(true, Wakeup::Signal(ControlSignal::Stop)).1, SamplerAction::Exit);
    assert_eq!(sampler_step(false, Wakeup::Disconnected).1, SamplerAction::Exit);
}
