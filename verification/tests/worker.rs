use std::collections::HashMap;
use task_maker::job::{Execution, FileStoreKey, WorkerJob};
use task_maker::worker::{WorkerAction, WorkerCurrentJob, WorkerError, WorkerEvent};

fn key(b: u8) -> FileStoreKey {
    FileStoreKey { hash: vec![b, b, b] }
}

fn job(uuid: u128, deps: Vec<u128>, keys: Vec<(u128, u8)>) -> WorkerJob {
    let mut dep_keys = HashMap::new();
    for (u, k) in keys {
        dep_keys.insert(u, key(k));
    }
    WorkerJob {
        execution: Execution {
            uuid,
            description: "exec".to_string(),
            dependencies: deps,
            stdout: None,
            stderr: None,
            outputs: vec![],
            keep_sandboxes: false,
        },
        dep_keys,
    }
}

fn step(w: &mut WorkerCurrentJob, e: WorkerEvent) -> Vec<WorkerAction> {
    assert!(w.accepts(&e));
    w.step(e)
}

#[test]
fn connected_worker_asks_for_work() {
    let mut w = WorkerCurrentJob::new();
    assert_eq!(step(&mut w, WorkerEvent::Connected), vec![WorkerAction::GetWork]);
    assert!(w.current_job().is_none());
}

#[test]
fn job_with_all_files_stored_starts_at_once() {
    let mut w = WorkerCurrentJob::new();
    let j = job(5, vec![1, 2], vec![(1, 1), (2, 2)]);
    let acts = step(&mut w, WorkerEvent::Work { job: j, stored: vec![true, true] });
    assert_eq!(acts, vec![WorkerAction::StartJob]);
    assert!(w.is_ready(1) && w.is_ready(2));
    assert_eq!(w.missing_count(), 0);
    assert!(w.current_job().is_none());
    assert_eq!(w.running_job().as_ref().unwrap().execution.uuid, 5);
}

#[test]
fn job_without_dependencies_starts_at_once() {
    let mut w = WorkerCurrentJob::new();
    let acts = step(&mut w, WorkerEvent::Work { job: job(5, vec![], vec![]), stored: vec![] });
    assert_eq!(acts, vec![WorkerAction::StartJob]);
}

#[test]
fn shared_missing_file_is_asked_once() {
    let mut w = WorkerCurrentJob::new();
    let j = job(5, vec![1, 2, 3], vec![(1, 7), (2, 7), (3, 8)]);
    let acts = step(&mut w, WorkerEvent::Work { job: j, stored: vec![false, false, true] });
    assert_eq!(acts, vec![WorkerAction::AskFile(key(7))]);
    assert!(w.is_missing(&key(7)));
    assert!(!w.is_missing(&key(8)));
    assert!(w.is_ready(3));
    assert!(!w.is_ready(1));

    assert_eq!(w.current_job().as_ref().unwrap().execution.uuid, 5);
    assert!(w.running_job().is_none());
    let acts = step(&mut w, WorkerEvent::ProvideFile { key: key(7) });
    assert_eq!(acts, vec![WorkerAction::StartJob]);
    assert!(w.current_job().is_none());
    assert_eq!(w.running_job().as_ref().unwrap().execution.uuid, 5);
    assert!(w.is_ready(1) && w.is_ready(2));
    assert_eq!(w.missing_count(), 0);
}

#[test]
fn job_starts_when_the_last_missing_file_arrives() {
    let mut w = WorkerCurrentJob::new();
    let j = job(5, vec![1, 2], vec![(1, 1), (2, 2)]);
    let acts = step(&mut w, WorkerEvent::Work { job: j, stored: vec![false, false] });
    assert_eq!(acts, vec![WorkerAction::AskFile(key(1)), WorkerAction::AskFile(key(2))]);
    assert_eq!(step(&mut w, WorkerEvent::ProvideFile { key: key(2) }), vec![]);
    assert!(w.is_ready(2));
    assert!(!w.is_ready(1));
    assert_eq!(step(&mut w, WorkerEvent::ProvideFile { key: key(1) }), vec![WorkerAction::StartJob]);
}

#[test]
fn dependency_without_key_fails_after_earlier_requests() {
    let mut w = WorkerCurrentJob::new();
    let j = job(5, vec![1, 2, 3], vec![(1, 1), (3, 3)]);
    let acts = step(&mut w, WorkerEvent::Work { job: j, stored: vec![false, false, false] });
    assert_eq!(
        acts,
        vec![
            WorkerAction::AskFile(key(1)),
            WorkerAction::Fail(WorkerError::MissingDependencyKey { uuid: 2 })
        ]
    );
    assert!(w.current_job().is_none());
    assert_eq!(w.missing_count(), 0);
}

#[test]
fn unexpected_events_are_not_accepted() {
    let mut w = WorkerCurrentJob::new();
    assert!(!w.accepts(&WorkerEvent::ProvideFile { key: key(1) }));
    assert!(!w.accepts(&WorkerEvent::Work { job: job(1, vec![1], vec![(1, 1)]), stored: vec![] }));
    let j = job(5, vec![1], vec![(1, 1)]);
    step(&mut w, WorkerEvent::Work { job: j, stored: vec![false] });
    assert!(!w.accepts(&WorkerEvent::Work { job: job(6, vec![], vec![]), stored: vec![] }));
    assert!(!w.accepts(&WorkerEvent::ProvideFile { key: key(2) }));
    assert!(!w.accepts(&WorkerEvent::JobFinished));
    assert!(w.accepts(&WorkerEvent::ProvideFile { key: key(1) }));
}

#[test]
fn started_job_is_not_started_again() {
    let mut w = WorkerCurrentJob::new();
    let j = job(5, vec![1], vec![(1, 1)]);
    step(&mut w, WorkerEvent::Work { job: j, stored: vec![true] });
    assert!(!w.accepts(&WorkerEvent::ProvideFile { key: key(1) }));
    assert_eq!(step(&mut w, WorkerEvent::SandboxStarted), vec![]);
    assert_eq!(step(&mut w, WorkerEvent::KillJob { execution: 6 }), vec![]);
    assert_eq!(step(&mut w, WorkerEvent::Connected), vec![WorkerAction::GetWork]);
}

#[test]
fn kill_reaches_only_the_running_job() {
    let mut w = WorkerCurrentJob::new();
    assert_eq!(step(&mut w, WorkerEvent::KillJob { execution: 5 }), vec![]);
    let j = job(5, vec![], vec![]);
    step(&mut w, WorkerEvent::Work { job: j, stored: vec![] });
    assert_eq!(step(&mut w, WorkerEvent::KillJob { execution: 5 }), vec![]);
    step(&mut w, WorkerEvent::SandboxStarted);
    assert!(w.has_sandbox());
    assert_eq!(step(&mut w, WorkerEvent::KillJob { execution: 4 }), vec![]);
    assert_eq!(step(&mut w, WorkerEvent::KillJob { execution: 5 }), vec![WorkerAction::KillSandbox]);
}

#[test]
fn finished_job_frees_the_worker() {
    let mut w = WorkerCurrentJob::new();
    let j = job(5, vec![1], vec![(1, 1)]);
    step(&mut w, WorkerEvent::Work { job: j, stored: vec![true] });
    step(&mut w, WorkerEvent::SandboxStarted);
    assert_eq!(step(&mut w, WorkerEvent::JobFinished), vec![WorkerAction::GetWork]);
    assert!(w.current_job().is_none());
    assert!(w.running_job().is_none());
    assert!(!w.has_sandbox());
    assert!(!w.is_ready(1));
    let j = job(6, vec![], vec![]);
    assert_eq!(step(&mut w, WorkerEvent::Work { job: j, stored: vec![] }), vec![WorkerAction::StartJob]);
}

#[test]
fn exit_stops() {
    let mut w = WorkerCurrentJob::new();
    assert_eq!(step(&mut w, WorkerEvent::Exit), vec![WorkerAction::Stop]);
}

#[test]
fn lost_connection_kills_the_sandbox_and_stops() {
    let mut w = WorkerCurrentJob::new();
    assert_eq!(step(&mut w, WorkerEvent::Disconnected), vec![WorkerAction::Stop]);
    let j = job(5, vec![], vec![]);
    step(&mut w, WorkerEvent::Work { job: j, stored: vec![] });
    step(&mut w, WorkerEvent::SandboxStarted);
    assert_eq!(
        step(&mut w, WorkerEvent::Disconnected),
        vec![WorkerAction::KillSandbox, WorkerAction::Stop]
    );
}

#[test]
fn requests_follow_the_first_occurrence_of_each_key() {
    let mut w = WorkerCurrentJob::new();
    let j = job(5, vec![1, 2, 3, 4, 5], vec![(1, 9), (2, 4), (3, 9), (4, 6), (5, 4)]);
    let acts = step(&mut w, WorkerEvent::Work { job: j, stored: vec![false, false, false, true, false] });
    assert_eq!(
        acts,
        vec![WorkerAction::AskFile(key(9)), WorkerAction::AskFile(key(4))]
    );
    assert_eq!(w.missing_count(), 2);
    assert!(w.is_ready(4));
}

#[test]
fn files_arriving_in_any_order_start_the_job_once_after_the_last() {
    let mut w = WorkerCurrentJob::new();
    let j = job(5, vec![1, 2, 3], vec![(1, 1), (2, 2), (3, 3)]);
    step(&mut w, WorkerEvent::Work { job: j, stored: vec![false, false, false] });
    assert_eq!(step(&mut w, WorkerEvent::ProvideFile { key: key(3) }), vec![]);
    assert_eq!(step(&mut w, WorkerEvent::ProvideFile { key: key(1) }), vec![]);
    assert!(w.running_job().is_none());
    assert_eq!(step(&mut w, WorkerEvent::ProvideFile { key: key(2) }), vec![WorkerAction::StartJob]);
    assert!(w.current_job().is_none());
    assert!(w.running_job().is_some());
    assert!(w.is_ready(1) && w.is_ready(2) && w.is_ready(3));
}

#[test]
fn missing_key_error_names_the_dependency() {
    let e = WorkerError::MissingDependencyKey { uuid: 0x67e5504410b1426f9247bb680e5fe0c8 };
    assert_eq!(e.message(), "missing key for dependency 67e55044-10b1-426f-9247-bb680e5fe0c8");
}
