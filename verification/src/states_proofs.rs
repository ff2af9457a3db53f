//! What reading makes of the text that writing wrote: the same states, in
//! ascending order of their keys.

use vstd::prelude::*;
use crate::states::{
    area_lead, area_open, digits_end, insert_place, insert_sorted, is_space, key_end, keys_ascend,
    orb_lead, orb_open, record_at, record_line, record_lines, records_from, skip_spaces,
    sort_entries, sorted_entries, spec_parse_states, spec_serialize, starts_with, tail_at, Record,
    StateEntries, StatesModel,
};
use crate::text::{
    all_digits, dec_text, int_text, is_digit, lemma_dec_text, lemma_text_lt_transitive,
    lemma_text_order_total, text_lt,
};
use crate::value::{key_index, keys_unique, lemma_key_index, lookup, put};

verus! {

/// Where an entry is put into sorted entries: after every entry whose key does
/// not come after its key, and before one whose key does.
pub(crate) proof fn lemma_insert_place(sorted: StateEntries, key: Seq<char>)
    ensures
        0 <= insert_place(sorted, key) <= sorted.len(),
        forall|j: int|
            0 <= j < insert_place(sorted, key) ==> !text_lt(key, (#[trigger] sorted[j]).0),
        insert_place(sorted, key) < sorted.len() ==> text_lt(
            key,
            sorted[insert_place(sorted, key)].0,
        ),
    decreases sorted.len(),
{
    if sorted.len() > 0 && !text_lt(key, sorted[0].0) {
        lemma_insert_place(sorted.drop_first(), key);
        let rest = sorted.drop_first();
        assert forall|j: int| 0 <= j < insert_place(sorted, key) implies !text_lt(
            key,
            (#[trigger] sorted[j]).0,
        ) by {
            if j > 0 {
                assert(sorted[j] == rest[j - 1]);
            }
        }
        if insert_place(sorted, key) < sorted.len() {
            assert(sorted[insert_place(sorted, key)] == rest[insert_place(rest, key)]);
        }
    }
}

/// Entries whose keys ascend still do so after an entry with a new key was put
/// in its place.
pub(crate) proof fn lemma_insert_keeps_order(sorted: StateEntries, e: (Seq<char>, i64))
    requires
        keys_ascend(sorted),
        forall|j: int| 0 <= j < sorted.len() ==> (#[trigger] sorted[j]).0 != e.0,
    ensures
        keys_ascend(insert_sorted(sorted, e)),
{
    lemma_insert_place(sorted, e.0);
    let ip = insert_place(sorted, e.0);
    let after = insert_sorted(sorted, e);
    assert forall|a: int, b: int| 0 <= a < b < after.len() implies text_lt(
        (#[trigger] after[a]).0,
        (#[trigger] after[b]).0,
    ) by {
        if b < ip {
            assert(after[a] == sorted[a] && after[b] == sorted[b]);
        } else if b == ip {
            assert(after[a] == sorted[a]);
            lemma_text_order_total(e.0, sorted[a].0);
        } else if a == ip {
            assert(after[b] == sorted[b - 1]);
            if b - 1 > ip {
                assert(text_lt(sorted[ip].0, sorted[b - 1].0));
                lemma_text_lt_transitive(e.0, sorted[ip].0, sorted[b - 1].0);
            }
        } else if a > ip {
            assert(after[a] == sorted[a - 1] && after[b] == sorted[b - 1]);
        } else {
            assert(after[a] == sorted[a] && after[b] == sorted[b - 1]);
            assert(a < b - 1);
            assert(text_lt(sorted[a].0, sorted[b - 1].0));
        }
    }
}

/// The sorted entries are the entries, each once, in ascending order of their
/// keys.
pub(crate) proof fn lemma_sort(es: StateEntries, n: int)
    requires
        keys_unique(es),
        0 <= n <= es.len(),
    ensures
        sort_entries(es, n).len() == n,
        keys_ascend(sort_entries(es, n)),
        forall|x: (Seq<char>, i64)|
            sort_entries(es, n).contains(x) <==> exists|j: int| 0 <= j < n && es[j] == x,
    decreases n,
{
    if n > 0 {
        lemma_sort(es, n - 1);
        let before = sort_entries(es, n - 1);
        let e = es[n - 1];
        lemma_insert_place(before, e.0);
        let ip = insert_place(before, e.0);
        let after = sort_entries(es, n);
        assert forall|j: int| 0 <= j < before.len() implies (#[trigger] before[j]).0 != e.0 by {
            assert(before.contains(before[j]));
            let k = choose|k: int| 0 <= k < n - 1 && es[k] == before[j];
            assert(es[k].0 != es[n - 1].0);
        }
        lemma_insert_keeps_order(before, e);
        assert forall|x: (Seq<char>, i64)| after.contains(x) <==> exists|j: int|
            0 <= j < n && es[j] == x by {
            if after.contains(x) {
                let a = choose|a: int| 0 <= a < after.len() && after[a] == x;
                if a < ip {
                    assert(before[a] == x);
                    assert(before.contains(x));
                } else if a > ip {
                    assert(before[a - 1] == x);
                    assert(before.contains(x));
                } else {
                    assert(es[n - 1] == x);
                }
            }
            if exists|j: int| 0 <= j < n && es[j] == x {
                let j = choose|j: int| 0 <= j < n && es[j] == x;
                if j == n - 1 {
                    assert(after[ip] == x);
                } else {
                    assert(before.contains(x));
                    let a = choose|a: int| 0 <= a < before.len() && before[a] == x;
                    if a < ip {
                        assert(after[a] == x);
                    } else {
                        assert(after[a + 1] == x);
                    }
                }
            }
        }
    }
}

/// Keys that ascend are all different.
pub(crate) proof fn lemma_ascending_unique(es: StateEntries)
    requires
        keys_ascend(es),
    ensures
        keys_unique(es),
{
    assert forall|i: int, j: int| 0 <= i < j < es.len() implies (#[trigger] es[i]).0 != (
    #[trigger] es[j]).0 by {
        lemma_text_order_total(es[i].0, es[i].0);
    }
}

/// Sorting changes no value: a key holds in the sorted entries what it holds
/// in the entries.
pub proof fn lemma_sorted_lookup(es: StateEntries, key: Seq<char>)
    requires
        keys_unique(es),
    ensures
        lookup(sorted_entries(es), key) == lookup(es, key),
        keys_ascend(sorted_entries(es)),
        keys_unique(sorted_entries(es)),
        sorted_entries(es).len() == es.len(),
{
    let sorted = sorted_entries(es);
    lemma_sort(es, es.len() as int);
    lemma_ascending_unique(sorted);
    lemma_key_index(es, key);
    lemma_key_index(sorted, key);
    match key_index(es, key) {
        Some(j) => {
            assert(sorted.contains(es[j]));
            let a = choose|a: int| 0 <= a < sorted.len() && sorted[a] == es[j];
            match key_index(sorted, key) {
                Some(b) => {
                    assert(a == b);
                },
                None => {
                    assert(sorted[a].0 == key);
                },
            }
        },
        None => {
            match key_index(sorted, key) {
                Some(b) => {
                    assert(sorted.contains(sorted[b]));
                    let j = choose|j: int| 0 <= j < es.len() && es[j] == sorted[b];
                    assert(es[j].0 == key);
                },
                None => {},
            }
        },
    }
}

/// A key that can be written and read back: it has a character, no line feed,
/// and nowhere a quotation mark before a closing bracket.
pub open spec fn key_ok(key: Seq<char>) -> bool {
    &&& key.len() > 0
    &&& forall|j: int| 0 <= j < key.len() ==> key[j] != '\n'
    &&& forall|j: int| 0 <= j < key.len() - 1 ==> !(#[trigger] key[j] == '"' && key[j + 1] == ']')
}

/// What a record begins with is fit for the scan: it has a character, begins
/// with neither a semicolon nor a line feed, and holds no line feed.
pub open spec fn lead_ok(lead: Seq<char>) -> bool {
    &&& lead.len() > 0
    &&& lead[0] != ';'
    &&& forall|j: int| 0 <= j < lead.len() ==> lead[j] != '\n'
}

/// What opens a value is fit for the scan: it has a character, begins with no
/// white space, and holds no quotation mark.
pub open spec fn open_ok(open: Seq<char>) -> bool {
    &&& open.len() > 0
    &&& !is_space(open[0])
    &&& forall|j: int| 0 <= j < open.len() ==> open[j] != '"'
}

/// Every key of the entries can be written and read back, and no value is
/// negative.
pub open spec fn entries_ok(es: StateEntries) -> bool {
    forall|i: int| 0 <= i < es.len() ==> key_ok((#[trigger] es[i]).0) && es[i].1 >= 0
}

/// Where two texts stand one after the other, each stands in its place.
pub(crate) proof fn lemma_stands_split(s: Seq<char>, pos: int, a: Seq<char>, b: Seq<char>)
    requires
        starts_with(s, pos, a + b),
    ensures
        starts_with(s, pos, a),
        starts_with(s, pos + a.len(), b),
{
    let w = a + b;
    assert(s.subrange(pos, pos + a.len()) =~= w.subrange(0, a.len() as int));
    assert(w.subrange(0, a.len() as int) =~= a);
    assert(s.subrange(pos + a.len(), pos + a.len() + b.len()) =~= w.subrange(
        a.len() as int,
        w.len() as int,
    ));
    assert(w.subrange(a.len() as int, w.len() as int) =~= b);
}

/// The characters of a text that stands in another.
pub(crate) proof fn lemma_stands_chars(s: Seq<char>, pos: int, w: Seq<char>)
    requires
        starts_with(s, pos, w),
    ensures
        forall|j: int| 0 <= j < w.len() ==> s[pos + j] == #[trigger] w[j],
{
    assert forall|j: int| 0 <= j < w.len() implies s[pos + j] == #[trigger] w[j] by {
        assert(s.subrange(pos, pos + w.len())[j] == s[pos + j]);
    }
}

/// The places of the parts of a record's line that stands at `pos`.
pub struct Line {
    /// Where the key starts.
    pub start: int,
    /// Where the key ends and the closing quotation mark stands.
    pub close: int,
    /// Where the digits start.
    pub d0: int,
    /// Where the digits end and the closing brace stands.
    pub d1: int,
    /// Where the next line starts.
    pub next: int,
}

/// The places of the parts of the line of `key` and `value` at `pos`.
pub open spec fn line_of(pos: int, lead: Seq<char>, open: Seq<char>, key: Seq<char>, value: int) -> Line {
    let start = pos + lead.len();
    let close = start + key.len();
    let d0 = close + 3 + open.len();
    let d1 = d0 + int_text(value).len();
    Line { start, close, d0, d1, next: d1 + 3 }
}

/// What stands where in a record's line.
pub(crate) proof fn lemma_line_chars(
    s: Seq<char>,
    pos: int,
    lead: Seq<char>,
    open: Seq<char>,
    key: Seq<char>,
    value: int,
)
    requires
        starts_with(s, pos, record_line(lead, open, key, value)),
        value >= 0,
    ensures
        ({
            let l = line_of(pos, lead, open, key, value);
            &&& l.next == pos + record_line(lead, open, key, value).len()
            &&& l.next <= s.len()
            &&& 0 <= pos
            &&& l.d0 < l.d1
            &&& starts_with(s, pos, lead)
            &&& starts_with(s, l.start, key)
            &&& starts_with(s, l.close + 3, open)
            &&& starts_with(s, l.d0, dec_text(value as nat))
            &&& s[l.close] == '"'
            &&& s[l.close + 1] == ']'
            &&& s[l.close + 2] == '='
            &&& s[l.d1] == '}'
            &&& s[l.d1 + 1] == ';'
            &&& s[l.d1 + 2] == '\n'
        }),
{
    reveal_strlit("\"]=");
    reveal_strlit("};\n");
    lemma_dec_text(value as nat);
    let mid = "\"]="@;
    let tail = "};\n"@;
    let digits = int_text(value);
    let line = record_line(lead, open, key, value);
    lemma_stands_split(s, pos, lead + key + mid + open + digits, tail);
    lemma_stands_split(s, pos, lead + key + mid + open, digits);
    lemma_stands_split(s, pos, lead + key + mid, open);
    lemma_stands_split(s, pos, lead + key, mid);
    lemma_stands_split(s, pos, lead, key);
    let l = line_of(pos, lead, open, key, value);
    lemma_stands_chars(s, l.close, mid);
    lemma_stands_chars(s, l.d1, tail);
    assert(mid[0] == '"' && mid[1] == ']' && mid[2] == '=');
    assert(tail[0] == '}' && tail[1] == ';' && tail[2] == '\n');
}

/// Where digits stand and no digit follows them, the digits end after them.
pub(crate) proof fn lemma_digits_run(s: Seq<char>, pos: int, digits: Seq<char>, i: int)
    requires
        starts_with(s, pos, digits),
        all_digits(digits),
        0 <= i <= digits.len(),
        pos + digits.len() < s.len(),
        !is_digit(s[pos + digits.len()]),
    ensures
        digits_end(s, pos + i) == pos + digits.len(),
    decreases digits.len() - i,
{
    lemma_stands_chars(s, pos, digits);
    if i < digits.len() {
        assert(s[pos + i] == digits[i]);
        lemma_digits_run(s, pos, digits, i + 1);
    }
}

/// The end of a record's line: what closes the record is found after its key.
pub(crate) proof fn lemma_tail_at_close(
    s: Seq<char>,
    pos: int,
    lead: Seq<char>,
    open: Seq<char>,
    key: Seq<char>,
    value: int,
)
    requires
        starts_with(s, pos, record_line(lead, open, key, value)),
        value >= 0,
        open_ok(open),
    ensures
        ({
            let l = line_of(pos, lead, open, key, value);
            tail_at(s, l.close, open) == Some((l.d0, l.d1, l.d1 + 1))
        }),
{
    reveal_strlit("\"]");
    lemma_line_chars(s, pos, lead, open, key, value);
    lemma_dec_text(value as nat);
    let l = line_of(pos, lead, open, key, value);
    assert(s.subrange(l.close, l.close + 2) =~= "\"]"@);
    lemma_stands_chars(s, l.close + 3, open);
    assert(s[l.close + 3] == open[0]);
    lemma_digits_run(s, l.d0, dec_text(value as nat), 0);
}

/// In a record's line, a quotation mark stands before a closing bracket only
/// where the key ends.
pub(crate) proof fn lemma_no_close(
    s: Seq<char>,
    pos: int,
    lead: Seq<char>,
    open: Seq<char>,
    key: Seq<char>,
    value: int,
    end: int,
)
    requires
        starts_with(s, pos, record_line(lead, open, key, value)),
        value >= 0,
        open_ok(open),
        key_ok(key),
        pos + lead.len() <= end < line_of(pos, lead, open, key, value).next,
        end != line_of(pos, lead, open, key, value).close,
    ensures
        !starts_with(s, end, "\"]"@),
{
    reveal_strlit("\"]");
    lemma_line_chars(s, pos, lead, open, key, value);
    lemma_dec_text(value as nat);
    let l = line_of(pos, lead, open, key, value);
    let lit = "\"]"@;
    if starts_with(s, end, lit) {
        lemma_stands_chars(s, end, lit);
        assert(s[end + 0] == lit[0]);
        assert(s[end + 1] == lit[1]);
        lemma_stands_chars(s, l.start, key);
        lemma_stands_chars(s, l.close + 3, open);
        lemma_stands_chars(s, l.d0, dec_text(value as nat));
        if end < l.close - 1 {
            assert(s[l.start + (end - l.start)] == key[end - l.start]);
            assert(s[l.start + (end + 1 - l.start)] == key[end + 1 - l.start]);
        } else if end == l.close - 1 {
        } else if end < l.close + 3 {
        } else if end < l.d0 {
            assert(s[l.close + 3 + (end - l.close - 3)] == open[end - l.close - 3]);
        } else if end < l.d1 {
            assert(s[l.d0 + (end - l.d0)] == dec_text(value as nat)[end - l.d0]);
        } else {
        }
    }
}

/// The key of a record's line ends where its closing quotation mark stands.
pub(crate) proof fn lemma_key_end_own(
    s: Seq<char>,
    pos: int,
    lead: Seq<char>,
    open: Seq<char>,
    key: Seq<char>,
    value: int,
    end: int,
)
    requires
        starts_with(s, pos, record_line(lead, open, key, value)),
        value >= 0,
        open_ok(open),
        key_ok(key),
        line_of(pos, lead, open, key, value).start < end <= line_of(
            pos,
            lead,
            open,
            key,
            value,
        ).close,
    ensures
        key_end(s, line_of(pos, lead, open, key, value).start, end, open) == Some(
            line_of(pos, lead, open, key, value).close,
        ),
    decreases line_of(pos, lead, open, key, value).close - end,
{
    let l = line_of(pos, lead, open, key, value);
    lemma_line_chars(s, pos, lead, open, key, value);
    lemma_stands_chars(s, l.start, key);
    assert(s[l.start + (end - 1 - l.start)] == key[end - 1 - l.start]);
    if end < l.close {
        lemma_no_close(s, pos, lead, open, key, value, end);
        lemma_key_end_own(s, pos, lead, open, key, value, end + 1);
    } else {
        lemma_tail_at_close(s, pos, lead, open, key, value);
    }
}

/// The record that a line holds is found at the start of the line.
pub(crate) proof fn lemma_own_record(
    s: Seq<char>,
    pos: int,
    lead: Seq<char>,
    open: Seq<char>,
    key: Seq<char>,
    value: i64,
)
    requires
        starts_with(s, pos, record_line(lead, open, key, value as int)),
        value >= 0,
        open_ok(open),
        key_ok(key),
    ensures
        record_at(s, pos, lead, open) == Some(
            Record {
                key: key,
                value: value,
                end: line_of(pos, lead, open, key, value as int).next - 2,
            },
        ),
{
    let l = line_of(pos, lead, open, key, value as int);
    lemma_line_chars(s, pos, lead, open, key, value as int);
    lemma_key_end_own(s, pos, lead, open, key, value as int, l.start + 1);
    lemma_tail_at_close(s, pos, lead, open, key, value as int);
    lemma_dec_text(value as nat);
    assert(s.subrange(l.start, l.close) =~= key);
    assert(s.subrange(l.d0, l.d1) =~= dec_text(value as nat));
}

/// The entries from index `i` on, put one after the other into `acc`.
pub open spec fn put_states(acc: StateEntries, es: StateEntries, i: int) -> StateEntries
    decreases es.len() - i,
{
    if 0 <= i < es.len() {
        put_states(put(acc, es[i].0, es[i].1), es, i + 1)
    } else {
        acc
    }
}

/// The scan of the record's own kind passes a line with its record put in.
pub(crate) proof fn lemma_scan_own_line(
    s: Seq<char>,
    pos: int,
    lead: Seq<char>,
    open: Seq<char>,
    key: Seq<char>,
    value: i64,
    acc: StateEntries,
)
    requires
        starts_with(s, pos, record_line(lead, open, key, value as int)),
        value >= 0,
        open_ok(open),
        lead_ok(lead),
        key_ok(key),
    ensures
        records_from(s, pos, acc, lead, open) == records_from(
            s,
            pos + record_line(lead, open, key, value as int).len(),
            put(acc, key, value),
            lead,
            open,
        ),
{
    let l = line_of(pos, lead, open, key, value as int);
    lemma_line_chars(s, pos, lead, open, key, value as int);
    lemma_own_record(s, pos, lead, open, key, value);
    let after = put(acc, key, value);
    assert(records_from(s, pos, acc, lead, open) == records_from(
        s,
        l.next - 2,
        after,
        lead,
        open,
    ));
    assert(!starts_with(s, l.next - 2, lead)) by {
        if starts_with(s, l.next - 2, lead) {
            lemma_stands_chars(s, l.next - 2, lead);
            assert(s[l.next - 2 + 0] == lead[0]);
        }
    }
    assert(!starts_with(s, l.next - 1, lead)) by {
        if starts_with(s, l.next - 1, lead) {
            lemma_stands_chars(s, l.next - 1, lead);
            assert(s[l.next - 1 + 0] == lead[0]);
        }
    }
    assert(records_from(s, l.next - 2, after, lead, open) == records_from(
        s,
        l.next - 1,
        after,
        lead,
        open,
    ));
    assert(records_from(s, l.next - 1, after, lead, open) == records_from(
        s,
        l.next,
        after,
        lead,
        open,
    ));
}

/// In a line of another kind no key of a record ends: a key that starts in the
/// line, after at least as many characters as the line's lead has, finds
/// nothing that closes it before the line's end.
pub(crate) proof fn lemma_key_end_other(
    s: Seq<char>,
    pos: int,
    lead: Seq<char>,
    open: Seq<char>,
    key: Seq<char>,
    value: int,
    other_open: Seq<char>,
    differ: int,
    start: int,
    end: int,
)
    requires
        starts_with(s, pos, record_line(lead, open, key, value)),
        value >= 0,
        open_ok(open),
        key_ok(key),
        0 <= differ < open.len(),
        differ < other_open.len(),
        open[differ] != other_open[differ],
        pos + lead.len() <= end <= line_of(pos, lead, open, key, value).next,
    ensures
        key_end(s, start, end, other_open) is None,
    decreases line_of(pos, lead, open, key, value).next - end,
{
    let l = line_of(pos, lead, open, key, value);
    lemma_line_chars(s, pos, lead, open, key, value);
    if end <= start || end >= s.len() {
    } else if s[end - 1] == '\n' {
    } else {
        assert(end < l.next);
        if end == l.close {
            reveal_strlit("\"]");
            lemma_stands_chars(s, l.close + 3, open);
            assert(s[l.close + 3] == open[0]);
            assert(s[l.close + 3 + differ] == open[differ]);
            if starts_with(s, l.close + 3, other_open) {
                lemma_stands_chars(s, l.close + 3, other_open);
                assert(s[l.close + 3 + differ] == other_open[differ]);
            }
            assert(skip_spaces(s, l.close + 2) == l.close + 2);
            assert(skip_spaces(s, l.close + 3) == l.close + 3);
            assert(tail_at(s, end, other_open) is None);
        } else {
            lemma_no_close(s, pos, lead, open, key, value, end);
        }
        lemma_key_end_other(
            s,
            pos,
            lead,
            open,
            key,
            value,
            other_open,
            differ,
            start,
            end + 1,
        );
    }
}

/// In a line of another kind no record starts.
pub(crate) proof fn lemma_other_record(
    s: Seq<char>,
    pos: int,
    lead: Seq<char>,
    open: Seq<char>,
    key: Seq<char>,
    value: int,
    other_lead: Seq<char>,
    other_open: Seq<char>,
    differ: int,
    p: int,
)
    requires
        starts_with(s, pos, record_line(lead, open, key, value)),
        value >= 0,
        open_ok(open),
        key_ok(key),
        lead_ok(other_lead),
        other_lead.len() + 1 >= lead.len(),
        0 <= differ < open.len(),
        differ < other_open.len(),
        open[differ] != other_open[differ],
        pos <= p < line_of(pos, lead, open, key, value).next,
    ensures
        record_at(s, p, other_lead, other_open) is None,
{
    let l = line_of(pos, lead, open, key, value);
    lemma_line_chars(s, pos, lead, open, key, value);
    if starts_with(s, p, other_lead) {
        let start = p + other_lead.len();
        lemma_stands_chars(s, p, other_lead);
        if start > l.next - 1 {
            assert(s[p + (l.next - 1 - p)] == other_lead[l.next - 1 - p]);
        }
        lemma_key_end_other(
            s,
            pos,
            lead,
            open,
            key,
            value,
            other_open,
            differ,
            start,
            start + 1,
        );
    }
}

/// The scan of another kind passes a line and finds nothing in it.
pub(crate) proof fn lemma_scan_other_line(
    s: Seq<char>,
    pos: int,
    lead: Seq<char>,
    open: Seq<char>,
    key: Seq<char>,
    value: int,
    other_lead: Seq<char>,
    other_open: Seq<char>,
    differ: int,
    p: int,
    acc: StateEntries,
)
    requires
        starts_with(s, pos, record_line(lead, open, key, value)),
        value >= 0,
        open_ok(open),
        key_ok(key),
        lead_ok(other_lead),
        other_lead.len() + 1 >= lead.len(),
        0 <= differ < open.len(),
        differ < other_open.len(),
        open[differ] != other_open[differ],
        pos <= p <= line_of(pos, lead, open, key, value).next,
    ensures
        records_from(s, p, acc, other_lead, other_open) == records_from(
            s,
            pos + record_line(lead, open, key, value).len(),
            acc,
            other_lead,
            other_open,
        ),
    decreases line_of(pos, lead, open, key, value).next - p,
{
    let l = line_of(pos, lead, open, key, value);
    lemma_line_chars(s, pos, lead, open, key, value);
    if p < l.next {
        lemma_other_record(s, pos, lead, open, key, value, other_lead, other_open, differ, p);
        lemma_scan_other_line(
            s,
            pos,
            lead,
            open,
            key,
            value,
            other_lead,
            other_open,
            differ,
            p + 1,
            acc,
        );
    }
}

/// The scan of the records' own kind passes their lines with the records put
/// in.
pub(crate) proof fn lemma_scan_own_lines(
    s: Seq<char>,
    pos: int,
    lead: Seq<char>,
    open: Seq<char>,
    es: StateEntries,
    i: int,
    acc: StateEntries,
)
    requires
        0 <= i <= es.len(),
        starts_with(s, pos, record_lines(lead, open, es, i)),
        entries_ok(es),
        open_ok(open),
        lead_ok(lead),
    ensures
        records_from(s, pos, acc, lead, open) == records_from(
            s,
            pos + record_lines(lead, open, es, i).len(),
            put_states(acc, es, i),
            lead,
            open,
        ),
    decreases es.len() - i,
{
    if i < es.len() {
        let line = record_line(lead, open, es[i].0, es[i].1 as int);
        lemma_stands_split(s, pos, line, record_lines(lead, open, es, i + 1));
        lemma_scan_own_line(s, pos, lead, open, es[i].0, es[i].1, acc);
        lemma_scan_own_lines(
            s,
            pos + line.len(),
            lead,
            open,
            es,
            i + 1,
            put(acc, es[i].0, es[i].1),
        );
    }
}

/// The scan of another kind passes the lines and finds nothing in them.
pub(crate) proof fn lemma_scan_other_lines(
    s: Seq<char>,
    pos: int,
    lead: Seq<char>,
    open: Seq<char>,
    es: StateEntries,
    i: int,
    other_lead: Seq<char>,
    other_open: Seq<char>,
    differ: int,
    acc: StateEntries,
)
    requires
        0 <= i <= es.len(),
        starts_with(s, pos, record_lines(lead, open, es, i)),
        entries_ok(es),
        open_ok(open),
        lead_ok(other_lead),
        other_lead.len() + 1 >= lead.len(),
        0 <= differ < open.len(),
        differ < other_open.len(),
        open[differ] != other_open[differ],
    ensures
        records_from(s, pos, acc, other_lead, other_open) == records_from(
            s,
            pos + record_lines(lead, open, es, i).len(),
            acc,
            other_lead,
            other_open,
        ),
    decreases es.len() - i,
{
    if i < es.len() {
        let line = record_line(lead, open, es[i].0, es[i].1 as int);
        lemma_stands_split(s, pos, line, record_lines(lead, open, es, i + 1));
        lemma_scan_other_line(
            s,
            pos,
            lead,
            open,
            es[i].0,
            es[i].1 as int,
            other_lead,
            other_open,
            differ,
            pos,
            acc,
        );
        lemma_scan_other_lines(
            s,
            pos + line.len(),
            lead,
            open,
            es,
            i + 1,
            other_lead,
            other_open,
            differ,
            acc,
        );
    }
}

/// Entries without a repeated key, put into nothing, are the entries.
pub(crate) proof fn lemma_put_states_fresh(es: StateEntries, i: int)
    requires
        0 <= i <= es.len(),
        keys_unique(es),
    ensures
        put_states(es.take(i), es, i) == es,
    decreases es.len() - i,
{
    if i < es.len() {
        lemma_key_index(es.take(i), es[i].0);
        assert(key_index(es.take(i), es[i].0) is None) by {
            if let Some(j) = key_index(es.take(i), es[i].0) {
                assert(es.take(i)[j] == es[j]);
            }
        }
        assert(put(es.take(i), es[i].0, es[i].1) =~= es.take(i + 1));
        lemma_put_states_fresh(es, i + 1);
    } else {
        assert(es.take(i) =~= es);
    }
}

/// The sorted entries can be written and read back where the entries can.
pub(crate) proof fn lemma_sorted_ok(es: StateEntries)
    requires
        keys_unique(es),
        entries_ok(es),
    ensures
        entries_ok(sorted_entries(es)),
{
    let sorted = sorted_entries(es);
    lemma_sort(es, es.len() as int);
    assert forall|i: int| 0 <= i < sorted.len() implies key_ok((#[trigger] sorted[i]).0)
        && sorted[i].1 >= 0 by {
        assert(sorted.contains(sorted[i]));
        let j = choose|j: int| 0 <= j < es.len() && es[j] == sorted[i];
        assert(key_ok(es[j].0));
    }
}

/// The states can be written and read back: each table holds a key once, and
/// every key and value of either table is fit for it.
pub open spec fn states_ok(m: StatesModel) -> bool {
    &&& keys_unique(m.area_states)
    &&& keys_unique(m.shown_orbs)
    &&& entries_ok(m.area_states)
    &&& entries_ok(m.shown_orbs)
}

/// Reading the text that was written gives the states back, each table in
/// ascending order of its keys: for states in which no value is negative and
/// every key has a character, no line feed, and nowhere a quotation mark
/// before a closing bracket.
pub proof fn lemma_states_round_trip(m: StatesModel)
    requires
        states_ok(m),
    ensures
        spec_parse_states(spec_serialize(m)).area_states == sorted_entries(m.area_states),
        spec_parse_states(spec_serialize(m)).shown_orbs == sorted_entries(m.shown_orbs),
        keys_ascend(sorted_entries(m.area_states)),
        keys_ascend(sorted_entries(m.shown_orbs)),
        forall|key: Seq<char>|
            lookup(#[trigger] spec_parse_states(spec_serialize(m)).area_states, key) == lookup(
                m.area_states,
                key,
            ),
        forall|key: Seq<char>|
            lookup(#[trigger] spec_parse_states(spec_serialize(m)).shown_orbs, key) == lookup(
                m.shown_orbs,
                key,
            ),
{
    reveal_strlit("AreaState[\"");
    reveal_strlit("{LocationState=");
    reveal_strlit("ShownOrbs[\"");
    reveal_strlit("{OrbSeen=");
    let areas = sorted_entries(m.area_states);
    let orbs = sorted_entries(m.shown_orbs);
    let first = record_lines(area_lead(), area_open(), areas, 0);
    let second = record_lines(orb_lead(), orb_open(), orbs, 0);
    let text = spec_serialize(m);
    let none = Seq::<(Seq<char>, i64)>::empty();
    lemma_sorted_ok(m.area_states);
    lemma_sorted_ok(m.shown_orbs);
    lemma_sorted_lookup(m.area_states, Seq::empty());
    lemma_sorted_lookup(m.shown_orbs, Seq::empty());
    assert(text.subrange(0, text.len() as int) =~= text);
    lemma_stands_split(text, 0, first, second);
    assert(lead_ok(area_lead()));
    assert(lead_ok(orb_lead()));
    assert(open_ok(area_open()));
    assert(open_ok(orb_open()));
    assert(area_open()[1] != orb_open()[1]);

    lemma_scan_own_lines(text, 0, area_lead(), area_open(), areas, 0, none);
    assert(areas.take(0) =~= none);
    lemma_put_states_fresh(areas, 0);
    lemma_scan_other_lines(
        text,
        first.len() as int,
        orb_lead(),
        orb_open(),
        orbs,
        0,
        area_lead(),
        area_open(),
        1,
        areas,
    );

    lemma_scan_other_lines(
        text,
        0,
        area_lead(),
        area_open(),
        areas,
        0,
        orb_lead(),
        orb_open(),
        1,
        none,
    );
    lemma_scan_own_lines(text, first.len() as int, orb_lead(), orb_open(), orbs, 0, none);
    assert(orbs.take(0) =~= none);
    lemma_put_states_fresh(orbs, 0);

    assert forall|key: Seq<char>|
        lookup(#[trigger] spec_parse_states(spec_serialize(m)).area_states, key) == lookup(
            m.area_states,
            key,
        ) by {
        lemma_sorted_lookup(m.area_states, key);
    }
    assert forall|key: Seq<char>|
        lookup(#[trigger] spec_parse_states(spec_serialize(m)).shown_orbs, key) == lookup(
            m.shown_orbs,
            key,
        ) by {
        lemma_sorted_lookup(m.shown_orbs, key);
    }
}

/// Entries that hold each key once still do so after a value was put in.
pub(crate) proof fn lemma_put_state_unique(es: StateEntries, key: Seq<char>, value: i64)
    requires
        keys_unique(es),
    ensures
        keys_unique(put(es, key, value)),
{
    crate::value::lemma_put(es, key, value, key);
}

/// The records that were read hold each key once.
pub proof fn lemma_records_unique(
    s: Seq<char>,
    pos: int,
    acc: StateEntries,
    lead: Seq<char>,
    open: Seq<char>,
)
    requires
        keys_unique(acc),
    ensures
        keys_unique(records_from(s, pos, acc, lead, open)),
    decreases s.len() - pos,
{
    if 0 <= pos < s.len() {
        match record_at(s, pos, lead, open) {
            Some(r) => {
                if pos < r.end <= s.len() {
                    lemma_put_state_unique(acc, r.key, r.value);
                    lemma_records_unique(s, r.end, put(acc, r.key, r.value), lead, open);
                }
            },
            None => {
                lemma_records_unique(s, pos + 1, acc, lead, open);
            },
        }
    }
}

} // verus!
