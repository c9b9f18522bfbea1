use std::collections::HashMap;
use task_maker::job::{Execution, FileStoreKey, WorkerJob};

#[test]
fn keys_compare_by_content() {
    let a = FileStoreKey { hash: vec![1, 2, 3] };
    assert!(a.same_as(&FileStoreKey { hash: vec![1, 2, 3] }));
    assert!(!a.same_as(&FileStoreKey { hash: vec![1, 2, 4] }));
    assert!(!a.same_as(&FileStoreKey { hash: vec![1, 2] }));
    assert!(a.duplicate().same_as(&a));
}

#[test]
fn job_gives_the_keys_it_has() {
    let mut dep_keys = HashMap::new();
    dep_keys.insert(4u128, FileStoreKey { hash: vec![9] });
    let j = WorkerJob {
        execution: Execution {
            uuid: 1,
            description: String::new(),
            dependencies: vec![4, 5],
            stdout: None,
            stderr: None,
            outputs: vec![],
            keep_sandboxes: true,
        },
        dep_keys,
    };
    assert_eq!(j.dep_key(4), Some(&FileStoreKey { hash: vec![9] }));
    assert_eq!(j.dep_key(5), None);
}
