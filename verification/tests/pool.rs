use prime_time::pool::{FinishAction, Pool, SubmitAction};

#[test]
fn tasks_start_while_workers_are_free() {
    let mut p = Pool::new(2);
    assert_eq!(p.submit(), SubmitAction::StartNow);
    assert_eq!(p.submit(), SubmitAction::StartNow);
    assert_eq!(p.busy, 2);
    assert_eq!(p.queued, 0);
}

#[test]
fn excess_connection_waits_until_a_worker_frees() {
    // Two workers, three slow clients: the third is accepted but only
    // queued, and is served only once one of the first two finishes.
    let mut p = Pool::new(2);
    assert_eq!(p.submit(), SubmitAction::StartNow);
    assert_eq!(p.submit(), SubmitAction::StartNow);
    assert_eq!(p.submit(), SubmitAction::Enqueue);
    assert_eq!(p.busy, 2);
    assert_eq!(p.queued, 1);
    assert_eq!(p.task_finished(), FinishAction::StartQueued);
    assert_eq!(p.busy, 2);
    assert_eq!(p.queued, 0);
}

#[test]
fn idle_worker_waits_for_the_next_task() {
    let mut p = Pool::new(1);
    assert_eq!(p.submit(), SubmitAction::StartNow);
    assert_eq!(p.task_finished(), FinishAction::WorkerIdle);
    assert_eq!(p.busy, 0);
    assert_eq!(p.submit(), SubmitAction::StartNow);
}
