use sentiment_server::pool::{Message, ThreadPool, WorkerState};

#[test]
fn new_pool_has_idle_workers_and_empty_ledgers() {
    let p = ThreadPool::new(3);
    assert_eq!(p.size, 3);
    assert_eq!(p.workers.len(), 3);
    assert!(p.workers.iter().all(|w| matches!(w, WorkerState::Idle)));
    assert_eq!(p.channel.len(), 0);
    assert_eq!(p.submitted.len(), 0);
    assert_eq!(p.completed.len(), 0);
    assert!(!p.shutting_down);
}

#[test]
fn execute_enqueues_in_order() {
    let mut p = ThreadPool::new(2);
    p.execute(10);
    p.execute(20);
    assert_eq!(p.submitted, vec![10, 20]);
    assert_eq!(p.channel, vec![Message::NewJob(10), Message::NewJob(20)]);
    assert_eq!(p.completed.len(), 0);
}

#[test]
fn jobs_run_exactly_once_in_submission_order() {
    let mut p = ThreadPool::new(2);
    for id in [10u64, 20, 30] {
        p.execute(id);
    }
    p.run_to_completion();
    assert_eq!(p.completed, vec![10, 20, 30]);
    assert_eq!(p.channel.len(), 0);
    // no shutdown was asked for, so every worker is still available
    assert!(p.workers.iter().all(|w| matches!(w, WorkerState::Idle)));
    assert!(!p.shutting_down);
}

#[test]
fn worker_finishes_job_then_reacts_to_terminate() {
    let mut p = ThreadPool::new(1);
    p.execute(7);
    p.begin_shutdown();
    // the job message stands ahead of the terminate message
    p.step_worker(0);
    assert_eq!(p.completed, vec![7]);
    assert!(matches!(p.workers[0], WorkerState::Idle));
    p.step_worker(0);
    assert_eq!(p.completed, vec![7]);
    assert!(matches!(p.workers[0], WorkerState::Terminated));
    assert_eq!(p.channel.len(), 0);
}

#[test]
fn shutdown_terminates_every_worker_after_all_jobs() {
    let mut p = ThreadPool::new(3);
    for id in 0..5u64 {
        p.execute(id);
    }
    p.begin_shutdown();
    p.run_to_completion();
    assert_eq!(p.completed, vec![0, 1, 2, 3, 4]);
    assert_eq!(p.channel.len(), 0);
    assert!(p.workers.iter().all(|w| matches!(w, WorkerState::Terminated)));
}

#[test]
fn pool_of_four_processes_one_hundred_jobs() {
    // pool size 4, 100 no-op jobs: exactly 4 workers exist throughout and
    // collectively process all 100 jobs
    let mut p = ThreadPool::new(4);
    for id in 0..100u64 {
        p.execute(id);
    }
    assert_eq!(p.workers.len(), 4);
    p.begin_shutdown();
    p.run_to_completion();
    assert_eq!(p.workers.len(), 4);
    assert_eq!(p.completed.len(), 100);
    let expected: Vec<u64> = (0..100).collect();
    assert_eq!(p.completed, expected);
    assert!(p.workers.iter().all(|w| matches!(w, WorkerState::Terminated)));
}
