use supervisor::store::{load, save_all, RosterEntry};

fn entry(file_name: &str, logical_name: &str) -> RosterEntry {
    RosterEntry {
        file_name: file_name.as_bytes().to_vec(),
        logical_name: logical_name.as_bytes().to_vec(),
    }
}

#[test]
fn save_writes_one_record_per_entry() {
    let text = save_all(&vec![entry("echo.js", "pinger"), entry("b.js", "x")]);
    assert_eq!(text, b"echo.js pinger\r\nb.js x\r\n".to_vec());
}

#[test]
fn save_of_no_entries_is_empty() {
    assert_eq!(save_all(&Vec::new()), Vec::<u8>::new());
}

#[test]
fn load_of_empty_text_is_empty() {
    assert!(load(b"").is_empty());
}

#[test]
fn load_reads_records_in_order() {
    let entries = load(b"a.js x\r\nb.js y\r\nc.js z\r\n");
    assert_eq!(entries, vec![entry("a.js", "x"), entry("b.js", "y"), entry("c.js", "z")]);
}

#[test]
fn load_reads_a_last_record_without_separator() {
    assert_eq!(load(b"a.js x"), vec![entry("a.js", "x")]);
    assert_eq!(load(b"a.js x\r\nb.js y"), vec![entry("a.js", "x"), entry("b.js", "y")]);
}

#[test]
fn load_passes_over_malformed_records() {
    let entries = load(b"onlyone\r\na.js x\r\n\r\nthree words here\r\n   \r\nb.js y\r\n");
    assert_eq!(entries, vec![entry("a.js", "x"), entry("b.js", "y")]);
}

#[test]
fn load_splits_fields_at_any_whitespace() {
    assert_eq!(load(b"  a.js \t  x  \r\n"), vec![entry("a.js", "x")]);
}

#[test]
fn load_separates_records_only_at_carriage_return_line_feed() {
    // A bare line feed is whitespace inside one record, which then holds four words.
    assert!(load(b"a.js x\nb.js y").is_empty());
    assert_eq!(load(b"a.js\nx\r\nb.js\ry"), vec![entry("a.js", "x"), entry("b.js", "y")]);
}

#[test]
fn save_then_load_gives_the_roster_back() {
    let roster = vec![
        entry("echo.js", "pinger"),
        entry("/srv/jobs/tick.js", "tick"),
        entry("a.js", "x"),
        entry("b.js", "y-2"),
    ];
    assert_eq!(load(&save_all(&roster)), roster);
}

#[test]
fn save_then_load_keeps_duplicate_entries() {
    let roster = vec![entry("a.js", "x"), entry("a.js", "x")];
    assert_eq!(load(&save_all(&roster)), roster);
}

#[test]
fn a_name_with_a_space_does_not_come_back() {
    let roster = vec![entry("a.js", "my app")];
    assert!(load(&save_all(&roster)).is_empty());
}
