use supervisor::sink::{log_entry, log_file_name};

#[test]
fn log_file_is_named_after_the_worker() {
    assert_eq!(log_file_name(b"pinger"), b"pinger.log".to_vec());
    assert_eq!(log_file_name(b""), b".log".to_vec());
}

#[test]
fn log_entry_ends_the_line() {
    assert_eq!(log_entry(b"hello"), b"hello\n".to_vec());
    assert_eq!(log_entry(b""), b"\n".to_vec());
}

#[test]
fn appended_entries_stand_in_order() {
    let mut log: Vec<u8> = Vec::new();
    let lines: [&[u8]; 3] = [b"one", b"", b"three 3"];
    for line in lines {
        let before = log.clone();
        log.extend_from_slice(&log_entry(line));
        assert!(log.starts_with(&before));
    }
    assert_eq!(log, b"one\n\nthree 3\n".to_vec());
}
