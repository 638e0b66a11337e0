//! The roster file: one worker per record, the file to run and the worker's
//! name separated by a space, each record closed by a carriage return and a
//! line feed.

use crate::text::{
    append_bytes, is_word, lemma_tokens_are_words, lemma_tokens_of_pair, tokenize, tokens, views,
};
use vstd::prelude::*;
use vstd::slice::slice_subrange;

verus! {

/// One worker as the roster file records it.
#[derive(Debug, Clone, PartialEq, Eq)]
pub struct RosterEntry {
    pub file_name: Vec<u8>,
    pub logical_name: Vec<u8>,
}

impl View for RosterEntry {
    type V = (Seq<u8>, Seq<u8>);

    open spec fn view(&self) -> (Seq<u8>, Seq<u8>) {
        (self.file_name@, self.logical_name@)
    }
}

/// The views of a vector of entries.
pub open spec fn entry_views(v: Seq<RosterEntry>) -> Seq<(Seq<u8>, Seq<u8>)> {
    Seq::new(v.len(), |i: int| v[i]@)
}

/// Whether a carriage return and a line feed stand at `i` and `i + 1`.
pub open spec fn crlf_at(s: Seq<u8>, i: int) -> bool {
    0 <= i && i + 1 < s.len() && s[i] == 13 && s[i + 1] == 10
}

/// Number of bytes before the first record separator of `s`, or the length of
/// `s` where it holds none.
pub open spec fn record_len(s: Seq<u8>) -> nat
    decreases s.len(),
{
    if s.len() == 0 || crlf_at(s, 0) {
        0
    } else {
        1 + record_len(s.skip(1))
    }
}

/// What one record contributes: its two words as an entry, or nothing where
/// it does not hold exactly two words.
pub open spec fn entry_of(record: Seq<u8>) -> Seq<(Seq<u8>, Seq<u8>)> {
    let t = tokens(record);
    if t.len() == 2 {
        seq![(t[0], t[1])]
    } else {
        Seq::empty()
    }
}

/// The entries that a roster text holds, in order. Records are separated by
/// a carriage return and a line feed; malformed records are passed over.
pub open spec fn parse_roster(s: Seq<u8>) -> Seq<(Seq<u8>, Seq<u8>)>
    decreases s.len(),
{
    let n = record_len(s) as int;
    if n + 2 <= s.len() {
        entry_of(s.take(n)) + parse_roster(s.skip(n + 2))
    } else {
        entry_of(s)
    }
}

/// One entry as a record of the roster file.
pub open spec fn render_entry(e: (Seq<u8>, Seq<u8>)) -> Seq<u8> {
    e.0 + seq![32u8] + e.1 + seq![13u8, 10u8]
}

/// The roster text for `es`: the records of its entries, in order.
pub open spec fn render_roster(es: Seq<(Seq<u8>, Seq<u8>)>) -> Seq<u8>
    decreases es.len(),
{
    if es.len() == 0 {
        Seq::empty()
    } else {
        render_entry(es[0]) + render_roster(es.drop_first())
    }
}

/// A position `n` with no separator before it, which is the end of `s` or
/// the start of a separator, is where the first record ends.
pub proof fn lemma_record_len_is(s: Seq<u8>, n: int)
    requires
        0 <= n <= s.len(),
        forall|k: int| 0 <= k < n ==> !crlf_at(s, k),
        n == s.len() || crlf_at(s, n),
    ensures
        record_len(s) == n,
    decreases n,
{
    if n > 0 {
        let t = s.skip(1);
        assert(!crlf_at(s, 0));
        assert forall|k: int| 0 <= k < n - 1 implies !crlf_at(t, k) by {
            assert(!crlf_at(s, k + 1));
            assert(t[k] == s[k + 1]);
            if k + 1 < t.len() {
                assert(t[k + 1] == s[k + 2]);
            }
        }
        if n != s.len() {
            assert(t[n - 1] == s[n]);
            assert(t[n] == s[n + 1]);
        }
        lemma_record_len_is(t, n - 1);
    }
}

/// Every field of every entry that a roster text holds is a word.
pub proof fn lemma_loaded_fields_are_words(s: Seq<u8>)
    ensures
        forall|i: int|
            0 <= i < parse_roster(s).len() ==> is_word((#[trigger] parse_roster(s)[i]).0)
                && is_word(parse_roster(s)[i].1),
    decreases s.len(),
{
    let n = record_len(s) as int;
    let out = parse_roster(s);
    if n + 2 <= s.len() {
        let head = entry_of(s.take(n));
        let tail = parse_roster(s.skip(n + 2));
        lemma_tokens_are_words(s.take(n));
        lemma_loaded_fields_are_words(s.skip(n + 2));
        assert forall|i: int| 0 <= i < out.len() implies is_word((#[trigger] out[i]).0) && is_word(
            out[i].1,
        ) by {
            if i < head.len() {
                let t = tokens(s.take(n));
                assert(out[i] == head[i]);
                assert(is_word(t[0]) && is_word(t[1]));
            } else {
                assert(out[i] == tail[i - head.len()]);
            }
        }
    } else {
        lemma_tokens_are_words(s);
        assert forall|i: int| 0 <= i < out.len() implies is_word((#[trigger] out[i]).0) && is_word(
            out[i].1,
        ) by {
            let t = tokens(s);
            assert(is_word(t[0]) && is_word(t[1]));
        }
    }
}

/// What was loaded from any text at all is saved and loaded again unchanged.
pub proof fn lemma_load_save_load(s: Seq<u8>)
    ensures
        parse_roster(render_roster(parse_roster(s))) == parse_roster(s),
{
    lemma_loaded_fields_are_words(s);
    lemma_save_then_load(parse_roster(s));
}

/// Saving a roster and loading it again gives the same entries in the same
/// order, provided that every file name and every worker name is a word: the
/// file format separates fields by whitespace and cannot hold any other.
pub proof fn lemma_save_then_load(es: Seq<(Seq<u8>, Seq<u8>)>)
    requires
        forall|i: int| 0 <= i < es.len() ==> is_word((#[trigger] es[i]).0) && is_word(es[i].1),
    ensures
        parse_roster(render_roster(es)) == es,
    decreases es.len(),
{
    let s = render_roster(es);
    if es.len() == 0 {
        assert(s.len() == 0);
        assert(tokens(s).len() == 0);
        assert(parse_roster(s) =~= es);
    } else {
        let e = es[0];
        let rest = es.drop_first();
        let body = e.0 + seq![32u8] + e.1;
        let m = body.len() as int;
        assert(is_word(e.0) && is_word(e.1));
        assert(s =~= body + seq![13u8, 10u8] + render_roster(rest));
        assert forall|k: int| 0 <= k < m implies !crlf_at(s, k) by {
            assert(s[k] == body[k]);
            if k < e.0.len() {
                assert(body[k] == e.0[k]);
            } else if k > e.0.len() {
                assert(body[k] == e.1[k - e.0.len() - 1]);
            }
        }
        assert(s[m] == 13u8);
        assert(s[m + 1] == 10u8);
        lemma_record_len_is(s, m);
        assert(s.take(m) =~= body);
        assert(s.skip(m + 2) =~= render_roster(rest));
        lemma_tokens_of_pair(e.0, e.1);
        assert(entry_of(body) =~= seq![e]);
        assert forall|i: int| 0 <= i < rest.len() implies is_word((#[trigger] rest[i]).0)
            && is_word(rest[i].1) by {
            assert(rest[i] == es[i + 1]);
        }
        lemma_save_then_load(rest);
        assert(parse_roster(s) =~= seq![e] + rest);
        assert(seq![e] + rest =~= es);
    }
}

/// Reads the entries of a roster text. Records that do not hold exactly two
/// words are passed over; an empty text holds no entry.
pub fn load(text: &[u8]) -> (out: Vec<RosterEntry>)
    ensures
        entry_views(out@) == parse_roster(text@),
        forall|i: int|
            0 <= i < out@.len() ==> is_word((#[trigger] out@[i]).file_name@) && is_word(
                out@[i].logical_name@,
            ),
{
    let mut out: Vec<RosterEntry> = Vec::new();
    let mut i: usize = 0;
    proof {
        assert(text@.skip(0) =~= text@);
        assert(entry_views(out@) =~= Seq::empty());
    }
    loop
        invariant
            i <= text.len(),
            entry_views(out@) + parse_roster(text@.skip(i as int)) =~= parse_roster(text@),
        decreases text.len() - i,
    {
        let mut j: usize = i;
        while j < text.len() && !(j + 1 < text.len() && text[j] == 13 && text[j + 1] == 10)
            invariant
                i <= j <= text.len(),
                forall|k: int| i <= k < j ==> !crlf_at(text@, k),
            decreases text.len() - j,
        {
            j += 1;
        }
        let mut words = tokenize(slice_subrange(text, i, j));
        let ghost rest = text@.skip(i as int);
        let ghost before = entry_views(out@);
        proof {
            assert forall|k: int| 0 <= k < j - i implies !crlf_at(rest, k) by {
                assert(!crlf_at(text@, i + k));
                assert(rest[k] == text@[i + k]);
                if k + 1 < rest.len() {
                    assert(rest[k + 1] == text@[i + k + 1]);
                }
            }
            if j < text.len() {
                assert(rest[j - i] == text@[j as int]);
                assert(rest[j - i + 1] == text@[j + 1]);
            }
            lemma_record_len_is(rest, j - i);
            assert(rest.take(j - i) =~= text@.subrange(i as int, j as int));
            assert(views(words@) == tokens(rest.take(j - i)));
            assert(views(words@).len() == words@.len());
        }
        if words.len() == 2 {
            let logical_name = words.pop().unwrap();
            let file_name = words.pop().unwrap();
            proof {
                let t = tokens(rest.take(j - i));
                assert(t[0] == file_name@);
                assert(t[1] == logical_name@);
            }
            out.push(RosterEntry { file_name, logical_name });
        }
        proof {
            assert(entry_views(out@) =~= before + entry_of(rest.take(j - i)));
        }
        if j == text.len() {
            proof {
                assert(rest.take(j - i) =~= rest);
                lemma_loaded_fields_are_words(text@);
                assert forall|k: int| 0 <= k < out@.len() implies is_word(
                    (#[trigger] out@[k]).file_name@,
                ) && is_word(out@[k].logical_name@) by {
                    assert(entry_views(out@)[k] == out@[k]@);
                }
            }
            return out;
        }
        proof {
            assert(rest.skip(j - i + 2) =~= text@.skip(j + 2));
        }
        i = j + 2;
    }
}

/// Writes a roster as text: every entry's file name, a space, its worker
/// name, and the record separator.
pub fn save_all(entries: &Vec<RosterEntry>) -> (out: Vec<u8>)
    ensures
        out@ == render_roster(entry_views(entries@)),
{
    let mut out: Vec<u8> = Vec::new();
    let mut i: usize = 0;
    let ghost es = entry_views(entries@);
    proof {
        assert(es.skip(0) =~= es);
    }
    while i < entries.len()
        invariant
            i <= entries.len(),
            es == entry_views(entries@),
            out@ + render_roster(es.skip(i as int)) =~= render_roster(es),
        decreases entries.len() - i,
    {
        let ghost before = out@;
        append_bytes(&mut out, entries[i].file_name.as_slice());
        out.push(32u8);
        append_bytes(&mut out, entries[i].logical_name.as_slice());
        out.push(13u8);
        out.push(10u8);
        proof {
            let tail = es.skip(i as int);
            assert(tail[0] == entries@[i as int]@);
            assert(tail.drop_first() =~= es.skip(i + 1));
            assert(out@ =~= before + render_entry(tail[0]));
        }
        i += 1;
    }
    out
}

} // verus!
