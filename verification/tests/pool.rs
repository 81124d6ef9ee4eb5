use particle_pool::pool::{Msg, Pool, PoolError, StepEvent, WorkerPhase};

fn drive_to_ok(pool: &mut Pool) {
    let scope = pool.open_scope().expect("scope");
    pool.close_scope(scope).expect("join");
}

#[test]
fn zero_workers_rejected() {
    match Pool::new(0) {
        Err(PoolError::ZeroWorkers) => {}
        _ => panic!("a zero-worker pool must be rejected"),
    }
    assert!(Pool::new(1).is_ok());
}

#[test]
fn join_completeness_counts() {
    // One scope per count: 0, 1, worker-count, 10 x worker-count jobs. After
    // every join, everything ever submitted has completed.
    let workers = 4;
    let mut pool = Pool::new(workers).unwrap();
    let mut total = 0;
    for n_jobs in [0usize, 1, workers, 10 * workers] {
        let scope = pool.open_scope().unwrap();
        for _ in 0..n_jobs {
            pool.execute(&scope).unwrap();
        }
        pool.join_all(&scope).unwrap();
        total += n_jobs;
        assert_eq!(pool.completed.len(), total);
        assert_eq!(pool.completed, pool.submitted);
        pool.close_scope(scope).unwrap();
    }
}

#[test]
fn join_all_empty_scope() {
    let mut pool = Pool::new(3).unwrap();
    drive_to_ok(&mut pool);
    assert_eq!(pool.completed.len(), 0);
    assert!(pool.queue.is_empty());
}

#[test]
fn scope_sequencing_stamps() {
    // Jobs of scope 1 may run at any point before its join; scope 2's jobs
    // still all come later in the completion log.
    let mut pool = Pool::new(2).unwrap();

    let scope = pool.open_scope().unwrap();
    pool.execute(&scope).unwrap();
    pool.execute(&scope).unwrap();
    // Let one worker run a job early, before the barrier.
    let ev = pool.worker_step(0, false);
    assert!(matches!(ev, StepEvent::Ran { job: 0 }));
    pool.execute(&scope).unwrap();
    pool.close_scope(scope).unwrap();

    let scope = pool.open_scope().unwrap();
    pool.execute(&scope).unwrap();
    pool.execute(&scope).unwrap();
    pool.close_scope(scope).unwrap();

    let stamps: Vec<u64> = pool.completed.iter().map(|e| e.0).collect();
    assert_eq!(stamps, vec![1, 1, 1, 2, 2]);
    // Every generation-1 stamp precedes every generation-2 stamp.
    let last_of_first = stamps.iter().rposition(|&g| g == 1).unwrap();
    let first_of_second = stamps.iter().position(|&g| g == 2).unwrap();
    assert!(last_of_first < first_of_second);
}

#[test]
fn worker_steps_run_jobs_in_channel_order() {
    let mut pool = Pool::new(2).unwrap();
    let scope = pool.open_scope().unwrap();
    let a = pool.execute(&scope).unwrap();
    let b = pool.execute(&scope).unwrap();
    assert!(matches!(pool.worker_step(1, false), StepEvent::Ran { job } if job == a));
    assert!(matches!(pool.worker_step(0, false), StepEvent::Ran { job } if job == b));
    assert!(matches!(pool.worker_step(0, false), StepEvent::Idle));
    pool.close_scope(scope).unwrap();
    assert_eq!(pool.completed, vec![(1, a), (1, b)]);
}

#[test]
fn panic_propagation() {
    // One failing job among succeeding ones: the join reports the failure,
    // and the pool is defunct afterwards — later scopes fail fast.
    let mut pool = Pool::new(4).unwrap();
    let scope = pool.open_scope().unwrap();
    for _ in 0..3 {
        pool.execute(&scope).unwrap();
    }
    let ev = pool.worker_step(2, true);
    assert!(matches!(ev, StepEvent::Panicked { job: 0 }));
    assert!(matches!(pool.workers[2], WorkerPhase::Dead));
    match pool.join_all(&scope) {
        Err(PoolError::WorkerPanicked) => {}
        other => panic!("join must report the worker failure, got {:?}", other),
    }
    match pool.close_scope(scope) {
        Err(PoolError::WorkerPanicked) => {}
        other => panic!("closing the scope must report it too, got {:?}", other),
    }
    match pool.open_scope() {
        Err(PoolError::WorkerPanicked) => {}
        other => panic!("a poisoned pool must fail fast, got {:?}", other),
    }
}

#[test]
fn shutdown_makes_pool_defunct() {
    let mut pool = Pool::new(2).unwrap();
    drive_to_ok(&mut pool);
    pool.shutdown();
    match pool.open_scope() {
        Err(PoolError::Defunct) => {}
        other => panic!("a torn-down pool must fail fast, got {:?}", other),
    }
}

#[test]
fn barrier_holds_fast_worker() {
    // Two-phase join: a worker that reached its join message pauses and
    // takes nothing more off the channel until the barrier is down.
    let mut pool = Pool::new(2).unwrap();
    let scope = pool.open_scope().unwrap();
    pool.execute(&scope).unwrap();
    pool.begin_join(&scope).unwrap();
    // Worker 0 drains the job, then pauses at its join message.
    assert!(matches!(pool.worker_step(0, false), StepEvent::Ran { job: 0 }));
    assert!(matches!(pool.worker_step(0, false), StepEvent::PausedAt { gen: 1 }));
    // Paused: the remaining join message is not for it to take.
    assert!(matches!(pool.worker_step(0, false), StepEvent::Idle));
    assert!(matches!(pool.queue[0], Msg::Join { gen: 1 }));
    assert!(!pool.all_settled());
    assert!(matches!(pool.worker_step(1, false), StepEvent::PausedAt { gen: 1 }));
    assert!(pool.all_settled());
    pool.finish_join(&scope).unwrap();
    // Both workers poll again.
    assert!(matches!(pool.workers[0], WorkerPhase::Polling));
    assert!(matches!(pool.workers[1], WorkerPhase::Polling));
    pool.close_scope(scope).unwrap();
}

#[test]
fn pool_reusable_across_scopes() {
    let mut pool = Pool::new(3).unwrap();
    for round in 1..=5u64 {
        let scope = pool.open_scope().unwrap();
        pool.execute(&scope).unwrap();
        pool.close_scope(scope).unwrap();
        assert_eq!(pool.completed.len(), round as usize);
    }
    assert_eq!(pool.thread_count(), 3);
}

#[test]
fn join_all_then_submit_more() {
    // The explicit join is a flush: the scope survives it and may submit
    // further jobs, which the scope's end then waits for as well.
    let mut pool = Pool::new(4).unwrap();
    let scope = pool.open_scope().unwrap();
    let a = pool.execute(&scope).unwrap();
    let b = pool.execute(&scope).unwrap();
    pool.join_all(&scope).unwrap();
    assert_eq!(pool.completed, vec![(1, a), (1, b)]);
    let c = pool.execute(&scope).unwrap();
    pool.close_scope(scope).unwrap();
    assert_eq!(pool.completed, vec![(1, a), (1, b), (1, c)]);
}
