use static_server::pool::{Dispatch, Pool, Submission, WorkerState};

#[test]
fn new_pool_is_open_and_idle() {
    let pool: Pool<u32> = Pool::with_capacity(4);
    assert_eq!(pool.size(), 4);
    assert_eq!(pool.pending(), 0);
    assert!(pool.is_open());
    assert!(!pool.is_terminated());
    for worker in 0..4 {
        assert_eq!(pool.worker_state(worker), Some(WorkerState::Idle));
    }
    assert_eq!(pool.worker_state(4), None);
}

#[test]
fn jobs_are_handed_out_once_each_in_order() {
    // More jobs than workers: every job is run once, none is lost.
    for workers in 1usize..=4 {
        let jobs: u32 = 11;
        let mut pool: Pool<u32> = Pool::with_capacity(workers);
        for job in 0..jobs {
            assert_eq!(pool.execute(job), Submission::Queued);
        }
        assert_eq!(pool.pending(), jobs as usize);
        let mut ran = Vec::new();
        let mut turn = 0;
        loop {
            match pool.next_job(turn % workers) {
                Dispatch::Run(job) => ran.push(job),
                Dispatch::Wait => break,
                Dispatch::Stop => panic!("an open pool stopped a worker"),
            }
            turn += 1;
        }
        assert_eq!(ran, (0..jobs).collect::<Vec<u32>>());
        assert_eq!(pool.pending(), 0);
    }
}

#[test]
fn worker_waits_on_an_empty_open_queue() {
    let mut pool: Pool<&str> = Pool::with_capacity(2);
    assert_eq!(pool.next_job(0), Dispatch::Wait);
    assert_eq!(pool.worker_state(0), Some(WorkerState::Idle));
    assert_eq!(pool.execute("a"), Submission::Queued);
    assert_eq!(pool.next_job(1), Dispatch::Run("a"));
    assert_eq!(pool.worker_state(1), Some(WorkerState::Busy));
    assert_eq!(pool.next_job(0), Dispatch::Wait);
    assert_eq!(pool.next_job(1), Dispatch::Wait);
    assert_eq!(pool.worker_state(1), Some(WorkerState::Idle));
}

#[test]
fn shutdown_drains_the_queue_before_workers_stop() {
    let mut pool: Pool<u8> = Pool::with_capacity(2);
    for job in 0..5 {
        pool.execute(job);
    }
    assert_eq!(pool.next_job(0), Dispatch::Run(0));
    pool.close();
    assert!(!pool.is_open());
    assert_eq!(pool.pending(), 4);

    assert_eq!(pool.next_job(1), Dispatch::Run(1));
    assert_eq!(pool.next_job(0), Dispatch::Run(2));
    assert_eq!(pool.next_job(0), Dispatch::Run(3));
    assert_eq!(pool.next_job(1), Dispatch::Run(4));
    assert!(!pool.is_terminated());
    assert_eq!(pool.next_job(0), Dispatch::Stop);
    assert_eq!(pool.worker_state(0), Some(WorkerState::Stopped));
    assert_eq!(pool.worker_state(1), Some(WorkerState::Busy));
    assert!(!pool.is_terminated());
    assert_eq!(pool.next_job(1), Dispatch::Stop);
    assert!(pool.is_terminated());
    assert_eq!(pool.pending(), 0);
}

#[test]
fn submission_after_shutdown_is_dropped() {
    let mut pool: Pool<String> = Pool::with_capacity(1);
    assert_eq!(pool.execute("kept".to_string()), Submission::Queued);
    pool.close();
    pool.close();
    assert_eq!(pool.execute("late".to_string()), Submission::Dropped);
    assert_eq!(pool.pending(), 1);
    assert_eq!(pool.next_job(0), Dispatch::Run("kept".to_string()));
    assert_eq!(pool.next_job(0), Dispatch::Stop);
    assert_eq!(pool.execute("later".to_string()), Submission::Dropped);
    assert_eq!(pool.next_job(0), Dispatch::Stop);
    assert!(pool.is_terminated());
}

#[test]
fn unknown_worker_is_told_to_stop() {
    let mut pool: Pool<u8> = Pool::with_capacity(2);
    pool.execute(1);
    assert_eq!(pool.next_job(2), Dispatch::Stop);
    assert_eq!(pool.next_job(usize::MAX), Dispatch::Stop);
    assert_eq!(pool.pending(), 1);
    assert!(!pool.is_terminated());
}

#[test]
fn pool_without_workers() {
    let mut pool: Pool<u8> = Pool::with_capacity(0);
    assert_eq!(pool.size(), 0);
    assert_eq!(pool.execute(1), Submission::Queued);
    assert_eq!(pool.next_job(0), Dispatch::Stop);
    assert_eq!(pool.pending(), 1);
    assert!(pool.is_terminated());
}

#[test]
fn pool_runs_closures() {
    let mut pool: Pool<Box<dyn FnOnce() -> usize>> = Pool::with_capacity(2);
    for n in 0..6usize {
        pool.execute(Box::new(move || n * n));
    }
    pool.close();
    let mut results = Vec::new();
    let mut worker = 0;
    while !pool.is_terminated() {
        if let Dispatch::Run(job) = pool.next_job(worker) {
            results.push(job());
        }
        worker = (worker + 1) % 2;
    }
    assert_eq!(results, vec![0, 1, 4, 9, 16, 25]);
}
