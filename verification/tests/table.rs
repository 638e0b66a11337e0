use supervisor::registry::ViewRow;
use supervisor::table::{
    count_chars, push_bar, push_border, push_box, push_cell, push_header, push_header_cell,
    push_line_end, push_padded, push_padded_cell, push_row, render_table,
};
use supervisor::text::{parse_index, push_decimal};

fn row(index: usize, pid: u32, name: &str, file: &str, elapsed_seconds: u64) -> ViewRow {
    ViewRow {
        index,
        pid,
        logical_name: name.as_bytes().to_vec(),
        file_name: file.as_bytes().to_vec(),
        elapsed_seconds,
    }
}

fn border_text(left: &str, junction: &str, right: &str) -> String {
    let hz1 = "─".repeat(10);
    let hz2 = "─".repeat(50);
    format!("{left}{hz1}{junction}{hz1}{junction}{hz2}{junction}{hz2}{junction}{hz1}{right}\n")
}

fn header_text() -> String {
    let reset = "\x1b[0m";
    let bold = "\x1b[1m\x1b[32m";
    format!(
        "{vt} {bold}{:<8}{reset} {vt} {bold}{:<8}{reset} {vt} {bold}{:<48}{reset} {vt} {bold}{:<48}{reset} {vt} {bold}{:<8}{reset} {vt}\n",
        "ID",
        "PID",
        "Name",
        "File",
        "Active",
        vt = "│"
    )
}

fn row_text(r: &ViewRow) -> String {
    format!(
        "{vt} {:<8} {vt} {:<8} {vt} {:<48} {vt} {:<48} {vt} {:<8} {vt}\n",
        r.index,
        r.pid,
        String::from_utf8(r.logical_name.clone()).unwrap(),
        String::from_utf8(r.file_name.clone()).unwrap(),
        format!("{}s", r.elapsed_seconds),
        vt = "│"
    )
}

#[test]
fn decimal_is_written_without_leading_zeros() {
    for (n, text) in [(0u64, "0"), (7, "7"), (10, "10"), (907, "907"), (u64::MAX, "18446744073709551615")] {
        let mut out = b"x".to_vec();
        push_decimal(&mut out, n);
        assert_eq!(out, format!("x{}", text).into_bytes());
    }
}

#[test]
fn written_decimal_reads_back() {
    for n in [0usize, 1, 9, 10, 99, 100, 12345, usize::MAX] {
        let mut out = Vec::new();
        push_decimal(&mut out, n as u64);
        assert_eq!(parse_index(&out), Some(n));
    }
}

#[test]
fn box_characters_are_three_bytes() {
    let mut out = Vec::new();
    push_box(&mut out, 0x80);
    push_box(&mut out, 0x82);
    assert_eq!(out, "─│".as_bytes().to_vec());
}

#[test]
fn bar_repeats_the_stroke() {
    let mut out = Vec::new();
    push_bar(&mut out, 0);
    assert!(out.is_empty());
    push_bar(&mut out, 3);
    assert_eq!(out, "───".as_bytes().to_vec());
}

#[test]
fn borders_rule_five_columns() {
    let mut out = Vec::new();
    push_border(&mut out, 0x8C, 0xAC, 0x90);
    assert_eq!(out, border_text("┌", "┬", "┐").into_bytes());
    let mut out = Vec::new();
    push_border(&mut out, 0x9C, 0xBC, 0xA4);
    assert_eq!(out, border_text("├", "┼", "┤").into_bytes());
    let mut out = Vec::new();
    push_border(&mut out, 0x94, 0xB4, 0x98);
    assert_eq!(out, border_text("└", "┴", "┘").into_bytes());
}

#[test]
fn characters_are_counted_not_bytes() {
    assert_eq!(count_chars(b""), 0);
    assert_eq!(count_chars(b"abc"), 3);
    assert_eq!(count_chars("é│x".as_bytes()), 3);
    assert_eq!(count_chars("日本語".as_bytes()), 3);
}

#[test]
fn padding_fills_to_the_width() {
    let mut out = b"[".to_vec();
    push_padded(&mut out, b"ab", 5);
    out.push(b']');
    assert_eq!(out, b"[ab   ]".to_vec());
}

#[test]
fn padding_leaves_wide_content_alone() {
    let mut out = Vec::new();
    push_padded(&mut out, b"abcdef", 3);
    push_padded(&mut out, b"xyz", 3);
    push_padded(&mut out, b"", 0);
    assert_eq!(out, b"abcdefxyz".to_vec());
}

#[test]
fn padding_counts_characters() {
    let mut out = Vec::new();
    push_padded(&mut out, "é".as_bytes(), 3);
    assert_eq!(out, format!("{:<3}", "é").into_bytes());
}

#[test]
fn cells_and_line_end() {
    let mut out = Vec::new();
    push_cell(&mut out, b"ab");
    push_padded_cell(&mut out, b"c", 3);
    push_line_end(&mut out);
    assert_eq!(out, "│ ab │ c   │\n".as_bytes().to_vec());
}

#[test]
fn header_cell_is_highlighted() {
    let mut out = Vec::new();
    push_header_cell(&mut out, b"ID", 4);
    assert_eq!(out, "│ \x1b[1m\x1b[32mID  \x1b[0m ".as_bytes().to_vec());
}

#[test]
fn header_names_the_columns() {
    let mut out = Vec::new();
    push_header(&mut out);
    assert_eq!(out, header_text().into_bytes());
}

#[test]
fn row_line_shows_the_five_fields() {
    let r = row(0, 4242, "pinger", "echo.js", 3);
    let mut out = Vec::new();
    push_row(&mut out, &r);
    assert_eq!(out, row_text(&r).into_bytes());
    let text = String::from_utf8(out).unwrap();
    assert!(text.starts_with("│ 0        │ 4242     │ pinger "));
    assert!(text.ends_with(" │ 3s       │\n"));
}

#[test]
fn table_of_two_rows() {
    let rows = vec![row(0, 11, "a", "a.js", 60), row(1, 12, "b", "/srv/b.js", 0)];
    let mut expected = String::new();
    expected.push_str(&border_text("┌", "┬", "┐"));
    expected.push_str(&header_text());
    expected.push_str(&border_text("├", "┼", "┤"));
    expected.push_str(&row_text(&rows[0]));
    expected.push_str(&border_text("├", "┼", "┤"));
    expected.push_str(&row_text(&rows[1]));
    expected.push_str(&border_text("└", "┴", "┘"));
    assert_eq!(render_table(&rows), expected.into_bytes());
}

#[test]
fn table_without_rows_is_only_the_header() {
    let mut expected = String::new();
    expected.push_str(&border_text("┌", "┬", "┐"));
    expected.push_str(&header_text());
    expected.push_str(&border_text("├", "┼", "┤"));
    assert_eq!(render_table(&Vec::new()), expected.into_bytes());
}
