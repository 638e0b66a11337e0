use supervisor::registry::{Registry, RegistryError, ViewRow, WorkerRecord};
use supervisor::store::RosterEntry;

fn registry_of(workers: &[(&str, &str, u64, u32)]) -> Registry {
    let mut registry = Registry::new();
    for (file, name, at, pid) in workers {
        registry
            .register(file.as_bytes().to_vec(), name.as_bytes().to_vec(), *at, Some(*pid))
            .unwrap();
    }
    registry
}

#[test]
fn new_record_has_no_process() {
    let record = WorkerRecord::new(b"echo.js".to_vec(), b"pinger".to_vec(), 1700000000);
    assert_eq!(record.file_name, b"echo.js".to_vec());
    assert_eq!(record.logical_name, b"pinger".to_vec());
    assert_eq!(record.started_at, 1700000000);
    assert_eq!(record.handle, None);
    assert!(!record.is_live());
}

#[test]
fn attach_gives_the_record_its_process() {
    let mut record = WorkerRecord::new(b"echo.js".to_vec(), b"pinger".to_vec(), 5);
    record.attach(4321);
    assert_eq!(record.handle, Some(4321));
    assert!(record.is_live());
    assert_eq!(record.started_at, 5);
}

#[test]
fn new_registry_is_empty() {
    let registry = Registry::new();
    assert!(registry.is_empty());
    assert_eq!(registry.len(), 0);
    assert!(registry.list(10).is_empty());
    assert!(registry.roster().is_empty());
}

#[test]
fn register_returns_the_next_index() {
    let mut registry = Registry::new();
    assert_eq!(registry.register(b"a.js".to_vec(), b"a".to_vec(), 1, Some(11)), Ok(0));
    assert_eq!(registry.register(b"b.js".to_vec(), b"b".to_vec(), 2, Some(12)), Ok(1));
    assert_eq!(registry.register(b"c.js".to_vec(), b"c".to_vec(), 3, Some(13)), Ok(2));
    assert_eq!(registry.len(), 3);
    assert!(!registry.is_empty());
    assert_eq!(registry.workers[1].logical_name, b"b".to_vec());
    assert_eq!(registry.workers[1].handle, Some(12));
}

#[test]
fn failed_launch_registers_nothing() {
    let mut registry = registry_of(&[("a.js", "a", 1, 11)]);
    let before = registry.clone();
    assert_eq!(
        registry.register(b"b.js".to_vec(), b"b".to_vec(), 2, None),
        Err(RegistryError::SpawnFailed)
    );
    assert_eq!(registry, before);
    assert_eq!(
        registry.start(b"b.js".to_vec(), b"b".to_vec(), 2, None),
        Err(RegistryError::SpawnFailed)
    );
    assert_eq!(registry, before);
}

#[test]
fn start_returns_the_whole_roster_text() {
    let mut registry = Registry::new();
    assert_eq!(
        registry.start(b"echo.js".to_vec(), b"pinger".to_vec(), 100, Some(7)),
        Ok(b"echo.js pinger\r\n".to_vec())
    );
    assert_eq!(
        registry.start(b"b.js".to_vec(), b"x".to_vec(), 101, Some(8)),
        Ok(b"echo.js pinger\r\nb.js x\r\n".to_vec())
    );
    assert_eq!(registry.len(), 2);
}

#[test]
fn list_gives_one_row_per_worker() {
    let registry = registry_of(&[("a.js", "a", 100, 11), ("b.js", "b", 130, 12)]);
    let rows = registry.list(160);
    assert_eq!(
        rows,
        vec![
            ViewRow {
                index: 0,
                pid: 11,
                logical_name: b"a".to_vec(),
                file_name: b"a.js".to_vec(),
                elapsed_seconds: 60,
            },
            ViewRow {
                index: 1,
                pid: 12,
                logical_name: b"b".to_vec(),
                file_name: b"b.js".to_vec(),
                elapsed_seconds: 30,
            },
        ]
    );
}

#[test]
fn list_counts_no_time_before_the_start() {
    let registry = registry_of(&[("a.js", "a", 100, 11)]);
    assert_eq!(registry.list(100)[0].elapsed_seconds, 0);
    assert_eq!(registry.list(99)[0].elapsed_seconds, 0);
    assert_eq!(registry.list(0)[0].elapsed_seconds, 0);
    assert_eq!(registry.list(u64::MAX)[0].elapsed_seconds, u64::MAX - 100);
}

#[test]
fn list_skips_a_worker_without_process() {
    let mut registry = registry_of(&[("a.js", "a", 1, 11), ("c.js", "c", 3, 13)]);
    registry.workers.insert(1, WorkerRecord::new(b"b.js".to_vec(), b"b".to_vec(), 2));
    let rows = registry.list(10);
    assert_eq!(rows.len(), 2);
    assert_eq!(rows[0].index, 0);
    assert_eq!(rows[1].index, 2);
    assert_eq!(rows[1].pid, 13);
    assert_eq!(rows[1].elapsed_seconds, 7);
}

#[test]
fn list_twice_differs_only_in_elapsed_seconds() {
    let registry = registry_of(&[("a.js", "a", 100, 11), ("b.js", "b", 500, 12)]);
    let first = registry.list(300);
    let again = registry.list(300);
    assert_eq!(first, again);
    let later = registry.list(700);
    assert_eq!(first.len(), later.len());
    for (a, b) in first.iter().zip(later.iter()) {
        assert_eq!(a.index, b.index);
        assert_eq!(a.pid, b.pid);
        assert_eq!(a.logical_name, b.logical_name);
        assert_eq!(a.file_name, b.file_name);
        assert!(a.elapsed_seconds <= b.elapsed_seconds);
    }
    assert_eq!(later[0].elapsed_seconds, 600);
    assert_eq!(later[1].elapsed_seconds, 200);
}

#[test]
fn indices_stay_dense_through_registering_and_removing() {
    let mut registry = registry_of(&[
        ("a.js", "a", 1, 11),
        ("b.js", "b", 2, 12),
        ("c.js", "c", 3, 13),
        ("d.js", "d", 4, 14),
    ]);
    registry.remove_at(1).unwrap();
    registry.remove_at(0).unwrap();
    assert_eq!(registry.register(b"e.js".to_vec(), b"e".to_vec(), 5, Some(15)), Ok(2));
    let rows = registry.list(9);
    assert_eq!(rows.len(), registry.len());
    for (i, row) in rows.iter().enumerate() {
        assert_eq!(row.index, i);
    }
    let names: Vec<Vec<u8>> = rows.into_iter().map(|r| r.logical_name).collect();
    assert_eq!(names, vec![b"c".to_vec(), b"d".to_vec(), b"e".to_vec()]);
}

#[test]
fn remove_at_hands_the_record_back_and_shifts_the_rest() {
    let mut registry = registry_of(&[("a.js", "a", 1, 11), ("b.js", "b", 2, 12), ("c.js", "c", 3, 13)]);
    let removed = registry.remove_at(1).unwrap();
    assert_eq!(removed.logical_name, b"b".to_vec());
    assert_eq!(removed.file_name, b"b.js".to_vec());
    assert_eq!(removed.started_at, 2);
    assert_eq!(removed.handle, Some(12));
    assert_eq!(registry.len(), 2);
    assert_eq!(registry.workers[0].logical_name, b"a".to_vec());
    assert_eq!(registry.workers[1].logical_name, b"c".to_vec());
    assert_eq!(registry.handle_at(1), Ok(13));
}

#[test]
fn remove_at_past_the_end_is_an_error() {
    let mut registry = registry_of(&[("a.js", "a", 1, 11)]);
    let before = registry.clone();
    assert_eq!(registry.remove_at(1), Err(RegistryError::NoSuchIndex));
    assert_eq!(registry.remove_at(usize::MAX), Err(RegistryError::NoSuchIndex));
    assert_eq!(registry, before);
    assert_eq!(Registry::new().remove_at(0), Err(RegistryError::NoSuchIndex));
}

#[test]
fn remove_at_leaves_a_worker_without_process() {
    let mut registry = Registry::new();
    registry.workers.push(WorkerRecord::new(b"a.js".to_vec(), b"a".to_vec(), 1));
    assert_eq!(registry.remove_at(0), Err(RegistryError::NotRunning));
    assert_eq!(registry.len(), 1);
    assert_eq!(registry.handle_at(0), Err(RegistryError::NotRunning));
}

#[test]
fn handle_at_finds_the_process() {
    let registry = registry_of(&[("a.js", "a", 1, 11), ("b.js", "b", 2, 12)]);
    assert_eq!(registry.handle_at(0), Ok(11));
    assert_eq!(registry.handle_at(1), Ok(12));
    assert_eq!(registry.handle_at(2), Err(RegistryError::NoSuchIndex));
}

#[test]
fn logs_of_names_the_log_file() {
    let registry = registry_of(&[("a.js", "a", 1, 11), ("echo.js", "pinger", 2, 12)]);
    assert_eq!(registry.logs_of(1), Ok(b"pinger.log".to_vec()));
    assert_eq!(registry.logs_of(0), Ok(b"a.log".to_vec()));
    assert_eq!(registry.logs_of(2), Err(RegistryError::NoSuchIndex));
}

#[test]
fn roster_lists_file_and_name_in_order() {
    let registry = registry_of(&[("a.js", "x", 1, 11), ("b.js", "y", 2, 12)]);
    assert_eq!(
        registry.roster(),
        vec![
            RosterEntry { file_name: b"a.js".to_vec(), logical_name: b"x".to_vec() },
            RosterEntry { file_name: b"b.js".to_vec(), logical_name: b"y".to_vec() },
        ]
    );
}

#[test]
fn removal_does_not_change_what_start_saves_next() {
    let mut registry = registry_of(&[("a.js", "x", 1, 11), ("b.js", "y", 2, 12)]);
    registry.remove_at(0).unwrap();
    assert_eq!(
        registry.start(b"c.js".to_vec(), b"z".to_vec(), 3, Some(13)),
        Ok(b"b.js y\r\nc.js z\r\n".to_vec())
    );
}
