//! The status table: a listing drawn as text, with a header line, one line
//! for each row and ruled borders between them.

use crate::registry::{row_views, RowModel, ViewRow};
use crate::text::{append_bytes, decimal_digits, push_decimal};
use vstd::prelude::*;

verus! {

/// Width of the narrow columns: index, process id and elapsed time.
pub const NARROW: usize = 8;

/// Width of the wide columns: name and file.
pub const WIDE: usize = 48;

/// A box-drawing character, as its three bytes in UTF-8. All of them share
/// the first two bytes.
pub open spec fn box_char(last: u8) -> Seq<u8> {
    seq![0xE2u8, 0x94u8, last]
}

/// `n` horizontal strokes.
pub open spec fn bar(n: nat) -> Seq<u8>
    decreases n,
{
    if n == 0 {
        Seq::empty()
    } else {
        bar((n - 1) as nat) + box_char(0x80)
    }
}

/// A ruled line across the five columns, each two wider than its content,
/// with the given left end, junctions and right end, and a line feed.
#[verifier::opaque]
pub open spec fn border(left: u8, junction: u8, right: u8) -> Seq<u8> {
    box_char(left) + bar(10) + box_char(junction) + bar(10) + box_char(junction) + bar(50)
        + box_char(junction) + bar(50) + box_char(junction) + bar(10) + box_char(right) + seq![
        10u8,
    ]
}

/// The line above the header.
pub open spec fn top_border() -> Seq<u8> {
    border(0x8C, 0xAC, 0x90)
}

/// The line between two lines of the table.
pub open spec fn inner_border() -> Seq<u8> {
    border(0x9C, 0xBC, 0xA4)
}

/// The line below the last row.
pub open spec fn bottom_border() -> Seq<u8> {
    border(0x94, 0xB4, 0x98)
}

/// Whether `b` begins a character in UTF-8, that is, is no continuation byte.
pub open spec fn starts_char(b: u8) -> bool {
    b < 0x80 || b >= 0xC0
}

/// The number of characters that begin in `s`.
pub open spec fn char_count(s: Seq<u8>) -> nat
    decreases s.len(),
{
    if s.len() == 0 {
        0
    } else {
        char_count(s.drop_last()) + if starts_char(s.last()) {
            1nat
        } else {
            0nat
        }
    }
}

/// `n` spaces.
pub open spec fn spaces(n: nat) -> Seq<u8> {
    Seq::new(n, |i: int| 32u8)
}

/// `content` filled up with spaces on the right to `width` characters;
/// content that is wider stays as it is.
pub open spec fn padded(content: Seq<u8>, width: nat) -> Seq<u8> {
    if char_count(content) >= width {
        content
    } else {
        content + spaces((width - char_count(content)) as nat)
    }
}

/// One cell: a vertical stroke, a space, the content and a space.
pub open spec fn cell(content: Seq<u8>) -> Seq<u8> {
    box_char(0x82) + seq![32u8] + content + seq![32u8]
}

/// The end of a line of cells: a vertical stroke and a line feed.
pub open spec fn line_end() -> Seq<u8> {
    box_char(0x82) + seq![10u8]
}

/// `content` in bold green: between the escape sequences that switch bold
/// and green on and that reset both.
pub open spec fn highlighted(content: Seq<u8>) -> Seq<u8> {
    seq![27u8, 91u8, 49u8, 109u8, 27u8, 91u8, 51u8, 50u8, 109u8] + content + seq![
        27u8,
        91u8,
        48u8,
        109u8,
    ]
}

/// A cell of the header: the label, padded and highlighted.
pub open spec fn header_cell(label: Seq<u8>, width: nat) -> Seq<u8> {
    cell(highlighted(padded(label, width)))
}

/// The header line: `ID`, `PID`, `Name`, `File` and `Active`.
#[verifier::opaque]
pub open spec fn header_line() -> Seq<u8> {
    header_cell(seq![73u8, 68u8], NARROW as nat) + header_cell(seq![80u8, 73u8, 68u8], NARROW as nat)
        + header_cell(seq![78u8, 97u8, 109u8, 101u8], WIDE as nat) + header_cell(
        seq![70u8, 105u8, 108u8, 101u8],
        WIDE as nat,
    ) + header_cell(seq![65u8, 99u8, 116u8, 105u8, 118u8, 101u8], NARROW as nat) + line_end()
}

/// The elapsed time as shown: the seconds in decimal and the letter `s`.
pub open spec fn elapsed_text(seconds: u64) -> Seq<u8> {
    decimal_digits(seconds as nat).push(115u8)
}

/// The line of one row: index, process id, name, file and elapsed time.
#[verifier::opaque]
pub open spec fn row_line(row: RowModel) -> Seq<u8> {
    cell(padded(decimal_digits(row.index as nat), NARROW as nat)) + cell(
        padded(decimal_digits(row.pid as nat), NARROW as nat),
    ) + cell(padded(row.logical_name, WIDE as nat)) + cell(padded(row.file_name, WIDE as nat))
        + cell(padded(elapsed_text(row.elapsed_seconds), NARROW as nat)) + line_end()
}

/// The lines of the first `k` rows. Each row is followed by a border: the
/// bottom border after the last row of all, an inner border after any other.
pub open spec fn body(rows: Seq<RowModel>, k: nat) -> Seq<u8>
    decreases k,
{
    if k == 0 {
        Seq::empty()
    } else {
        body(rows, (k - 1) as nat) + row_line(rows[k - 1]) + if k == rows.len() {
            bottom_border()
        } else {
            inner_border()
        }
    }
}

/// The whole table for `rows`.
pub open spec fn table_text(rows: Seq<RowModel>) -> Seq<u8> {
    top_border() + header_line() + inner_border() + body(rows, rows.len())
}

/// Appending a line and a border to a text that ends in a body appends them
/// to the body.
proof fn lemma_body_grows(head: Seq<u8>, lines: Seq<u8>, line: Seq<u8>, rule: Seq<u8>)
    ensures
        head + lines + line + rule == head + (lines + line + rule),
{
    assert(head + lines + line + rule =~= head + (lines + line + rule));
}

/// Appends a box-drawing character.
pub fn push_box(out: &mut Vec<u8>, last: u8)
    ensures
        final(out)@ == old(out)@ + box_char(last),
{
    out.push(0xE2u8);
    out.push(0x94u8);
    out.push(last);
    proof {
        assert(out@ =~= old(out)@ + box_char(last));
    }
}

/// Appends `n` horizontal strokes.
pub fn push_bar(out: &mut Vec<u8>, n: usize)
    ensures
        final(out)@ == old(out)@ + bar(n as nat),
{
    let mut i: usize = 0;
    proof {
        assert(out@ =~= old(out)@ + bar(0));
    }
    while i < n
        invariant
            i <= n,
            out@ == old(out)@ + bar(i as nat),
        decreases n - i,
    {
        push_box(out, 0x80u8);
        i += 1;
        proof {
            assert(out@ =~= old(out)@ + bar(i as nat));
        }
    }
}

/// Appends a ruled line.
pub fn push_border(out: &mut Vec<u8>, left: u8, junction: u8, right: u8)
    ensures
        final(out)@ == old(out)@ + border(left, junction, right),
{
    push_box(out, left);
    push_bar(out, 10);
    push_box(out, junction);
    push_bar(out, 10);
    push_box(out, junction);
    push_bar(out, 50);
    push_box(out, junction);
    push_bar(out, 50);
    push_box(out, junction);
    push_bar(out, 10);
    push_box(out, right);
    out.push(10u8);
    proof {
        reveal(border);
        assert(out@ =~= old(out)@ + border(left, junction, right));
    }
}

/// Counts the characters that begin in `s`.
pub fn count_chars(s: &[u8]) -> (n: usize)
    ensures
        n == char_count(s@),
{
    let mut n: usize = 0;
    let mut i: usize = 0;
    while i < s.len()
        invariant
            i <= s.len(),
            n <= i,
            n == char_count(s@.take(i as int)),
        decreases s.len() - i,
    {
        proof {
            assert(s@.take(i + 1).drop_last() =~= s@.take(i as int));
        }
        if s[i] < 0x80u8 || s[i] >= 0xC0u8 {
            n += 1;
        }
        i += 1;
    }
    proof {
        assert(s@.take(s.len() as int) =~= s@);
    }
    n
}

/// Appends `content`, filled up with spaces to `width` characters.
pub fn push_padded(out: &mut Vec<u8>, content: &[u8], width: usize)
    ensures
        final(out)@ == old(out)@ + padded(content@, width as nat),
{
    let count: usize = count_chars(content);
    append_bytes(out, content);
    let mut i: usize = count;
    proof {
        assert(out@ =~= old(out)@ + content@ + spaces(0));
    }
    while i < width
        invariant
            count <= i,
            count < width ==> i <= width,
            count >= width ==> i == count,
            out@ == old(out)@ + content@ + spaces((i - count) as nat),
        decreases width - i,
    {
        out.push(32u8);
        i += 1;
        proof {
            assert(out@ =~= old(out)@ + content@ + spaces((i - count) as nat));
        }
    }
    proof {
        assert(out@ =~= old(out)@ + padded(content@, width as nat));
    }
}

/// Appends one cell.
pub fn push_cell(out: &mut Vec<u8>, content: &[u8])
    ensures
        final(out)@ == old(out)@ + cell(content@),
{
    push_box(out, 0x82u8);
    out.push(32u8);
    append_bytes(out, content);
    out.push(32u8);
    proof {
        assert(out@ =~= old(out)@ + cell(content@));
    }
}

/// Appends the end of a line of cells.
pub fn push_line_end(out: &mut Vec<u8>)
    ensures
        final(out)@ == old(out)@ + line_end(),
{
    push_box(out, 0x82u8);
    out.push(10u8);
    proof {
        assert(out@ =~= old(out)@ + line_end());
    }
}

/// Appends one cell of the header.
pub fn push_header_cell(out: &mut Vec<u8>, label: &[u8], width: usize)
    ensures
        final(out)@ == old(out)@ + header_cell(label@, width as nat),
{
    let mut content: Vec<u8> = vec![27u8, 91u8, 49u8, 109u8, 27u8, 91u8, 51u8, 50u8, 109u8];
    push_padded(&mut content, label, width);
    content.push(27u8);
    content.push(91u8);
    content.push(48u8);
    content.push(109u8);
    proof {
        assert(content@ =~= highlighted(padded(label@, width as nat)));
    }
    push_cell(out, content.as_slice());
}

/// Appends a cell that holds `content` padded to `width`.
pub fn push_padded_cell(out: &mut Vec<u8>, content: &[u8], width: usize)
    ensures
        final(out)@ == old(out)@ + cell(padded(content@, width as nat)),
{
    let mut text: Vec<u8> = Vec::new();
    push_padded(&mut text, content, width);
    proof {
        assert(text@ =~= padded(content@, width as nat));
    }
    push_cell(out, text.as_slice());
}

/// Appends the header line.
pub fn push_header(out: &mut Vec<u8>)
    ensures
        final(out)@ == old(out)@ + header_line(),
{
    let id: Vec<u8> = vec![73u8, 68u8];
    let pid: Vec<u8> = vec![80u8, 73u8, 68u8];
    let name: Vec<u8> = vec![78u8, 97u8, 109u8, 101u8];
    let file: Vec<u8> = vec![70u8, 105u8, 108u8, 101u8];
    let active: Vec<u8> = vec![65u8, 99u8, 116u8, 105u8, 118u8, 101u8];
    push_header_cell(out, id.as_slice(), NARROW);
    push_header_cell(out, pid.as_slice(), NARROW);
    push_header_cell(out, name.as_slice(), WIDE);
    push_header_cell(out, file.as_slice(), WIDE);
    push_header_cell(out, active.as_slice(), NARROW);
    push_line_end(out);
    proof {
        reveal(header_line);
        assert(out@ =~= old(out)@ + header_line());
    }
}

/// Appends the line of one row.
pub fn push_row(out: &mut Vec<u8>, row: &ViewRow)
    ensures
        final(out)@ == old(out)@ + row_line(row@),
{
    let mut index: Vec<u8> = Vec::new();
    push_decimal(&mut index, row.index as u64);
    let mut pid: Vec<u8> = Vec::new();
    push_decimal(&mut pid, row.pid as u64);
    let mut active: Vec<u8> = Vec::new();
    push_decimal(&mut active, row.elapsed_seconds);
    active.push(115u8);
    proof {
        assert(index@ =~= decimal_digits(row@.index as nat));
        assert(pid@ =~= decimal_digits(row@.pid as nat));
        assert(active@ =~= elapsed_text(row@.elapsed_seconds));
    }
    push_padded_cell(out, index.as_slice(), NARROW);
    push_padded_cell(out, pid.as_slice(), NARROW);
    push_padded_cell(out, row.logical_name.as_slice(), WIDE);
    push_padded_cell(out, row.file_name.as_slice(), WIDE);
    push_padded_cell(out, active.as_slice(), NARROW);
    push_line_end(out);
    proof {
        reveal(row_line);
        assert(out@ =~= old(out)@ + row_line(row@));
    }
}

/// Draws the table for a listing.
pub fn render_table(rows: &Vec<ViewRow>) -> (out: Vec<u8>)
    ensures
        out@ == table_text(row_views(rows@)),
{
    let mut out: Vec<u8> = Vec::new();
    push_border(&mut out, 0x8Cu8, 0xACu8, 0x90u8);
    push_header(&mut out);
    push_border(&mut out, 0x9Cu8, 0xBCu8, 0xA4u8);
    let ghost head = out@;
    let ghost rs = row_views(rows@);
    proof {
        assert(head =~= top_border() + header_line() + inner_border());
        assert(out@ =~= head + body(rs, 0));
    }
    let mut i: usize = 0;
    while i < rows.len()
        invariant
            i <= rows.len(),
            rs == row_views(rows@),
            out@ == head + body(rs, i as nat),
        decreases rows.len() - i,
    {
        push_row(&mut out, &rows[i]);
        if i + 1 == rows.len() {
            push_border(&mut out, 0x94u8, 0xB4u8, 0x98u8);
        } else {
            push_border(&mut out, 0x9Cu8, 0xBCu8, 0xA4u8);
        }
        i += 1;
        proof {
            let rule = if i == rows.len() {
                bottom_border()
            } else {
                inner_border()
            };
            assert(rs[i - 1] == rows@[i - 1]@);
            lemma_body_grows(head, body(rs, (i - 1) as nat), row_line(rs[i - 1]), rule);
        }
    }
    out
}

} // verus!
