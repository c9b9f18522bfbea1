use task_maker::identity::WorkerInfo;

#[test]
fn worker_is_shown_with_name_and_hyphenated_uuid() {
    let w = WorkerInfo { uuid: 0x67e5504410b1426f9247bb680e5fe0c8, name: "local".to_string() };
    assert_eq!(w.describe(), "'local' (67e55044-10b1-426f-9247-bb680e5fe0c8)");
}

#[test]
fn zero_uuid_is_all_zero_digits() {
    let w = WorkerInfo { uuid: 0, name: String::new() };
    assert_eq!(w.describe(), "'' (00000000-0000-0000-0000-000000000000)");
}

#[test]
fn new_worker_has_a_version_4_uuid() {
    let a = WorkerInfo::new("w".to_string());
    let b = WorkerInfo::new("w".to_string());
    assert_eq!(a.name, "w");
    assert_eq!((a.uuid >> 76) & 0xf, 4);
    assert_eq!((a.uuid >> 62) & 0x3, 2);
    assert_ne!(a.uuid, b.uuid);
    let text = a.describe();
    assert_eq!(text.len(), "'w' ()".len() + 36);
    assert!(text.starts_with("'w' ("));
}
