use std::collections::BTreeMap;

use river::kernel::capability::thread::{HartMask, ThreadPriorities, ThreadState};
use river::kernel::capability::wait_queue::{retain_others, WaitQueue};
use river::kernel::proc::sched as processes;
use river::kernel::sched::{Scheduler, SchedulerInner};

#[test]
fn boosts_are_bounded_and_undone() {
    let mut p = ThreadPriorities { base_prio: 10, inherited_prio: 0, prio_boost: 0 };
    assert_eq!(p.effective(), 10);
    for _ in 0..10 {
        p.boost();
    }
    assert_eq!(p.prio_boost(), 4);
    assert_eq!(p.effective(), 14);
    p.diminish();
    assert_eq!(p.prio_boost(), 3);
    for _ in 0..10 {
        p.saturating_diminish();
    }
    assert_eq!(p.prio_boost(), 0);
    assert_eq!(p.effective(), 10);
    let q = ThreadPriorities { base_prio: 3, inherited_prio: 20, prio_boost: 2 };
    assert_eq!(q.effective(), 20);
    assert_eq!((q.base_prio(), q.inherited_prio()), (3, 20));
}

#[test]
fn thread_states_are_read_back() {
    for (s, n) in [
        (ThreadState::Uninit, 0u8),
        (ThreadState::Suspended, 1),
        (ThreadState::Blocking, 2),
        (ThreadState::Runnable, 3),
        (ThreadState::Running, 4),
    ] {
        assert_eq!(u8::from(s), n);
        assert!(ThreadState::from(n) == s);
    }
}

#[test]
fn harts_of_a_mask() {
    assert_eq!(HartMask(0b1011).harts(4), vec![0, 1, 3]);
    assert_eq!(HartMask(0b1011).harts(2), vec![0, 1]);
    assert!(HartMask(0).harts(64).is_empty());
}

#[test]
fn the_highest_priority_runs_first() {
    let mut s = SchedulerInner::new(9);
    assert!(s.find_highest_prio().is_none());
    s.insert_in_run_queue_back(1, 5);
    s.insert_in_run_queue_back(2, 5);
    s.insert_in_run_queue_front(3, 5);
    s.insert_in_run_queue_back(4, 7);
    assert_eq!(s.find_highest_prio(), Some((4, 7)));
    s.remove_from_run_queue(4, 7);
    assert_eq!(s.find_highest_prio(), Some((3, 5)));
    assert_eq!(s.find_highest_prio(), Some((1, 5)));
    assert_eq!(s.find_highest_prio(), Some((2, 5)));
    assert_eq!(s.find_highest_prio(), Some((3, 5)));
    assert_eq!(s.idle_thread, 9);
}

#[test]
fn idle_harts() {
    let mut per_hart = BTreeMap::new();
    per_hart.insert(0, SchedulerInner::new(0));
    per_hart.insert(1, SchedulerInner::new(1));
    let mut s = Scheduler::init(per_hart, 2);
    assert!(!s.is_idle(1));
    s.idle_bitmap = 0b10;
    assert!(s.is_idle(1));
    assert!(!s.is_idle(0));
}

#[test]
fn wait_queues() {
    let mut q = WaitQueue::new(None);
    assert_eq!(q.highest_prio(), -1);
    assert_eq!(q.find_highest_thread(), None);
    q.insert(3, 10);
    q.insert(3, 11);
    q.insert(8, 12);
    assert_eq!(q.highest_prio(), 8);
    q.remove(3, 10);
    q.insert(3, 13);
    // One thread at a time, of the highest priority, the first one first.
    assert_eq!(q.find_highest_thread(), Some(12));
    assert_eq!(q.find_highest_thread(), Some(11));
    assert_eq!(q.find_highest_thread(), Some(13));
    assert_eq!(q.find_highest_thread(), None);
    // A class stays once there was one.
    assert_eq!(q.highest_prio(), 8);
    let mut threads = vec![1, 2, 1, 3];
    retain_others(&mut threads, 1);
    assert_eq!(threads, vec![2, 3]);
}

#[test]
fn processes_take_turns() {
    let mut s = processes::Scheduler::init(2);
    s.enqueue(0, 5);
    s.enqueue(0, 6);
    assert_eq!(s.next_proc(0, 0), Some(5));
    assert_eq!(s.next_proc(0, 0), Some(6));
    assert_eq!(s.next_proc(0, 0), Some(5));
    assert_eq!(s.next_proc(1, 0), None);
    s.current_proc_wait(0, 6);
    s.current_proc_wait(0, 5);
    // Those that wait are in the order of their numbers.
    assert_eq!(s.next_proc(1, 1), Some(6));
    assert_eq!(s.next_proc(0, 1), Some(5));
}
