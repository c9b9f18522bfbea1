use task_maker::execution::{
    compute_execution_result, plan_outputs, sandbox_failure_result, ExecutionStatus, OutputSource,
    SandboxResult,
};
use task_maker::job::Execution;

fn status_of(exit_status: u32, signal: Option<(u32, String)>, memory: &u64) -> ExecutionStatus {
    if *memory > 100 {
        ExecutionStatus::MemoryLimitExceeded
    } else if let Some((s, name)) = signal {
        ExecutionStatus::Signal(s, name)
    } else if exit_status != 0 {
        ExecutionStatus::ReturnCode(exit_status)
    } else {
        ExecutionStatus::Success
    }
}

#[test]
fn success_takes_the_status_of_the_execution() {
    let r = compute_execution_result(
        &status_of,
        SandboxResult::Success { exit_status: 3, signal: None, resources: 10u64, was_killed: true },
        0u64,
    );
    assert_eq!(r.status, ExecutionStatus::ReturnCode(3));
    assert_eq!(r.resources, 10);
    assert!(r.was_killed);
    assert!(!r.was_cached);

    let r = compute_execution_result(
        &status_of,
        SandboxResult::Success {
            exit_status: 0,
            signal: Some((9, "SIGKILL".to_string())),
            resources: 5u64,
            was_killed: false,
        },
        0u64,
    );
    assert_eq!(r.status, ExecutionStatus::Signal(9, "SIGKILL".to_string()));
    assert!(!r.was_killed);
}

#[test]
fn sandbox_failure_is_an_internal_error() {
    let r = compute_execution_result(
        &status_of,
        SandboxResult::Failed { error: "no such binary".to_string() },
        42u64,
    );
    assert_eq!(r.status, ExecutionStatus::InternalError("no such binary".to_string()));
    assert_eq!(r.resources, 42);
    assert!(!r.was_killed);
    assert!(!r.was_cached);
}

#[test]
fn failed_sandbox_run_quotes_the_error() {
    let r = sandbox_failure_result("boom", 0u64);
    assert_eq!(r.status, ExecutionStatus::InternalError("Sandbox failed: boom".to_string()));
    assert_eq!(r.resources, 0);
    assert!(!r.was_killed);
    assert!(!r.was_cached);
}

fn execution(outputs: Vec<(String, u128)>) -> Execution {
    Execution {
        uuid: 1,
        description: "run".to_string(),
        dependencies: vec![],
        stdout: Some(10),
        stderr: Some(11),
        outputs,
        keep_sandboxes: false,
    }
}

#[test]
fn outputs_come_from_streams_and_files() {
    let e = execution(vec![("out.txt".to_string(), 20), ("gone.txt".to_string(), 21)]);
    let plan = plan_outputs(&e, &vec![true, false]);
    assert_eq!(plan.len(), 4);
    assert_eq!(plan[&10], OutputSource::Stdout);
    assert_eq!(plan[&11], OutputSource::Stderr);
    assert_eq!(plan[&20], OutputSource::File("out.txt".to_string()));
    assert_eq!(plan[&21], OutputSource::Empty);
}

#[test]
fn later_output_replaces_earlier_for_the_same_file() {
    let e = execution(vec![("a".to_string(), 10), ("b".to_string(), 30), ("c".to_string(), 30)]);
    let plan = plan_outputs(&e, &vec![true, true, false]);
    assert_eq!(plan.len(), 3);
    assert_eq!(plan[&10], OutputSource::File("a".to_string()));
    assert_eq!(plan[&11], OutputSource::Stderr);
    assert_eq!(plan[&30], OutputSource::Empty);
}

#[test]
fn no_streams_no_outputs_no_files() {
    let mut e = execution(vec![]);
    e.stdout = None;
    e.stderr = None;
    assert!(plan_outputs(&e, &vec![]).is_empty());
}
