use task_maker::batch::{IOIBatchTask, IOITaskInfo, StaticFileProvider};

fn task() -> IOIBatchTask {
    IOIBatchTask { info: IOITaskInfo {} }
}

#[test]
fn format_is_ioi_batch() {
    assert_eq!(IOIBatchTask::format(), "ioi-batch");
}

#[test]
fn generator_gives_static_input_of_testcase() {
    let g = task().generator(3, 12);
    assert_eq!(g.description, "Static input of testcase 12");
    assert_eq!(g.path, ".");
}

#[test]
fn generator_writes_zero_and_largest_testcase() {
    assert_eq!(task().generator(0, 0).description, "Static input of testcase 0");
    assert_eq!(
        task().generator(0, u32::MAX).description,
        "Static input of testcase 4294967295"
    );
}

#[test]
fn official_solution_gives_static_output_of_testcase() {
    let s = task().official_solution(1, 7).unwrap();
    assert_eq!(s.description, "Static output of testcase 7");
    assert_eq!(s.path, ".");
    let s = task().official_solution(1, 1000).unwrap();
    assert_eq!(s.description, "Static output of testcase 1000");
}

#[test]
fn every_testcase_has_a_validator() {
    assert!(task().validator(0, 0).is_some());
    assert!(task().validator(5, 99).is_some());
}

#[test]
fn static_file_provider_keeps_its_fields() {
    let p = StaticFileProvider::new("d".to_string(), "p".to_string());
    assert_eq!(p.description, "d");
    assert_eq!(p.path, "p");
}
