//! Scenario tests that drive the pool model the way the embedding program
//! does: submit, dequeue, finish, resize and exit transitions, with the
//! wait predicate checked between them.

use worker_pool::pool::{threads_pool, WorkerPhase};
use worker_pool::shared::sharedData;

/// Runs the pool to completion: repeatedly finishes a running worker and
/// hands queued jobs to idle workers while there is room below the target,
/// exactly as the worker loops would.
fn drive_to_completion(p: &mut threads_pool) {
    loop {
        if p.data.queued_count > 0 && p.data.running_count < p.data.worker_target {
            let idle = p
                .workers
                .iter()
                .position(|w| matches!(w.phase, WorkerPhase::Idle));
            if let Some(i) = idle {
                p.worker_take_job(i);
                continue;
            }
        }
        let running = p
            .workers
            .iter()
            .position(|w| matches!(w.phase, WorkerPhase::Running));
        match running {
            Some(i) => p.worker_finish_job(i),
            None => break,
        }
    }
}

#[test]
fn new_pool_has_idle_workers_with_ordinals_in_order() {
    let p = threads_pool::new(4);
    assert_eq!(p.workers.len(), 4);
    for (i, w) in p.workers.iter().enumerate() {
        assert_eq!(w.id, i);
        assert!(matches!(w.phase, WorkerPhase::Idle));
    }
    assert_eq!(p.data.queued_count, 0);
    assert_eq!(p.data.running_count, 0);
    assert_eq!(p.data.worker_target, 4);
    assert_eq!(p.next_ordinal, 4);
}

#[test]
fn wait_on_empty_pool_returns_immediately() {
    let p = threads_pool::new(4);
    assert!(!p.data.has_tasks());
    assert!(p.data.notifiy_if_no_tasks());
}

#[test]
fn wait_twice_without_submit_returns_immediately_both_times() {
    let mut p = threads_pool::new(2);
    p.execute();
    p.worker_take_job(0);
    p.worker_finish_job(0);
    // first wait: the predicate is already false, so it returns at once
    assert!(!p.data.has_tasks());
    // second wait, no submit in between: still false, returns at once
    assert!(!p.data.has_tasks());
}

#[test]
fn has_tasks_tracks_queued_and_running() {
    let mut p = threads_pool::new(2);
    assert!(!p.data.has_tasks());
    p.execute();
    assert!(p.data.has_tasks());
    assert!(!p.data.notifiy_if_no_tasks());
    p.worker_take_job(0);
    // nothing queued, one running: still outstanding
    assert_eq!(p.data.queued_count, 0);
    assert_eq!(p.data.running_count, 1);
    assert!(p.data.has_tasks());
    assert!(!p.data.notifiy_if_no_tasks());
    p.worker_finish_job(0);
    assert!(!p.data.has_tasks());
    assert!(p.data.notifiy_if_no_tasks());
}

#[test]
fn four_workers_ten_jobs_run_to_completion() {
    let mut p = threads_pool::new(4);
    for _ in 0..10 {
        p.execute();
    }
    assert_eq!(p.data.queued_count, 10);
    // each of the four workers picks up one job
    for i in 0..4 {
        p.worker_take_job(i);
    }
    assert_eq!(p.data.running_count, 4);
    assert_eq!(p.data.queued_count, 6);
    drive_to_completion(&mut p);
    assert_eq!(p.data.queued_count, 0);
    assert_eq!(p.data.running_count, 0);
    assert!(!p.data.has_tasks());
}

#[test]
fn forty_jobs_then_grow_to_ten_workers() {
    let mut p = threads_pool::new(4);
    for _ in 0..40 {
        p.execute();
    }
    for i in 0..4 {
        p.worker_take_job(i);
    }
    let spawned = p.set_threads_num(10);
    assert_eq!(spawned, vec![4, 5, 6, 7, 8, 9]);
    assert_eq!(p.workers.len(), 10);
    assert_eq!(p.data.worker_target, 10);
    // the six new workers are idle and may start at once
    for i in 4..10 {
        assert!(matches!(p.workers[i].phase, WorkerPhase::Idle));
        p.worker_take_job(i);
    }
    assert_eq!(p.data.running_count, 10);
    assert_eq!(p.data.queued_count, 30);
    drive_to_completion(&mut p);
    assert!(!p.data.has_tasks());
    assert_eq!(p.data.queued_count, 0);
    assert_eq!(p.data.running_count, 0);
}

#[test]
fn growth_is_immediate_and_ordinals_are_fresh() {
    let mut p = threads_pool::new(3);
    let spawned = p.set_threads_num(5);
    assert_eq!(spawned, vec![3, 4]);
    assert_eq!(p.workers.len(), 5);
    for (i, w) in p.workers.iter().enumerate() {
        assert_eq!(w.id, i);
        assert!(matches!(w.phase, WorkerPhase::Idle));
    }
}

#[test]
fn ordinals_stay_unique_across_shrink_and_grow() {
    let mut p = threads_pool::new(2);
    p.set_threads_num(1);
    // worker 1 reaches its idle check, sees no room, and exits
    assert!(p.data.worker_should_exit() == (p.data.running_count >= 1));
    p.worker_exit(1);
    assert_eq!(p.workers.len(), 1);
    // growing again hands out ordinals never used before
    let spawned = p.set_threads_num(3);
    assert_eq!(spawned, vec![2, 3]);
    let ids: Vec<usize> = p.workers.iter().map(|w| w.id).collect();
    assert_eq!(ids, vec![0, 2, 3]);
}

#[test]
fn shrink_is_lazy_and_never_touches_a_running_worker() {
    let mut p = threads_pool::new(3);
    p.execute();
    p.execute();
    p.worker_take_job(0);
    p.worker_take_job(1);
    let spawned = p.set_threads_num(1);
    // no worker is created or removed by the shrink itself
    assert!(spawned.is_empty());
    assert_eq!(p.workers.len(), 3);
    assert!(matches!(p.workers[0].phase, WorkerPhase::Running));
    assert!(matches!(p.workers[1].phase, WorkerPhase::Running));
    assert_eq!(p.data.running_count, 2);
    // the reduction is seen at the idle point
    assert!(p.data.worker_should_exit());
    p.worker_exit(2);
    assert_eq!(p.workers.len(), 2);
    // the running workers finish their jobs undisturbed
    p.worker_finish_job(0);
    p.worker_finish_job(1);
    assert!(!p.data.has_tasks());
}

#[test]
fn shrink_to_zero_leaves_queued_jobs_outstanding() {
    let mut p = threads_pool::new(1);
    p.execute();
    p.execute();
    p.set_threads_num(0);
    assert!(p.data.worker_should_exit());
    p.worker_exit(0);
    assert!(p.workers.is_empty());
    // nothing will run them: wait would block forever
    assert_eq!(p.data.queued_count, 2);
    assert!(p.data.has_tasks());
}

#[test]
fn single_worker_runs_jobs_one_after_another() {
    let mut p = threads_pool::new(1);
    for _ in 0..3 {
        p.execute();
    }
    for remaining in (0..3).rev() {
        p.worker_take_job(0);
        assert_eq!(p.data.running_count, 1);
        assert_eq!(p.data.queued_count, remaining);
        // with the one slot taken, the worker target leaves no room
        assert!(p.data.worker_should_exit() == (p.data.running_count >= p.data.worker_target));
        p.worker_finish_job(0);
    }
    assert!(!p.data.has_tasks());
    assert!(p.data.notifiy_if_no_tasks());
}

#[test]
fn worker_should_exit_compares_running_against_target() {
    let mut s = sharedData::new(2);
    assert!(!s.worker_should_exit());
    s.on_submit();
    s.on_submit();
    s.on_dequeue();
    assert!(!s.worker_should_exit());
    s.on_dequeue();
    assert!(s.worker_should_exit());
    s.on_finish();
    assert!(!s.worker_should_exit());
    s.set_target(0);
    assert!(s.worker_should_exit());
}

#[test]
fn shared_counters_follow_the_job_lifecycle() {
    let mut s = sharedData::new(4);
    assert_eq!(s.queued_count, 0);
    assert_eq!(s.running_count, 0);
    s.on_submit();
    assert_eq!(s.queued_count, 1);
    s.on_dequeue();
    assert_eq!(s.queued_count, 0);
    assert_eq!(s.running_count, 1);
    assert!(s.has_tasks());
    s.on_finish();
    assert_eq!(s.running_count, 0);
    assert!(!s.has_tasks());
    assert!(s.notifiy_if_no_tasks());
}

#[test]
fn resize_keeps_counters_unchanged() {
    let mut p = threads_pool::new(2);
    for _ in 0..5 {
        p.execute();
    }
    p.worker_take_job(0);
    p.set_threads_num(6);
    assert_eq!(p.data.queued_count, 4);
    assert_eq!(p.data.running_count, 1);
    p.set_threads_num(1);
    assert_eq!(p.data.queued_count, 4);
    assert_eq!(p.data.running_count, 1);
}
