//! The text states: two tables from a key to an integer, one record per line,
//! such as `AreaState["<key>"]={LocationState=<int>};`.

use vstd::prelude::*;
use crate::text::{
    all_digits, chars_of, dec_value, int_text, is_digit, push_integer, push_text, string_of,
    text_before, text_lt,
};
use crate::value::{find_key, key_index, lemma_key_index, lemma_key_index_is, put};

verus! {

/// The two tables of the text states. Each holds a key once.
#[derive(Debug, Clone, PartialEq)]
pub struct StatesData {
    pub area_states: Vec<(String, i64)>,
    pub shown_orbs: Vec<(String, i64)>,
}

/// The entries of one table of states.
pub type StateEntries = Seq<(Seq<char>, i64)>;

/// What a `StatesData` stands for.
pub struct StatesModel {
    pub area_states: StateEntries,
    pub shown_orbs: StateEntries,
}

/// The model of a table of states, entry by entry.
pub open spec fn states_view(t: Seq<(String, i64)>) -> StateEntries {
    Seq::new(t.len(), |i: int| (t[i].0@, t[i].1))
}

impl View for StatesData {
    type V = StatesModel;

    open spec fn view(&self) -> StatesModel {
        StatesModel {
            area_states: states_view(self.area_states@),
            shown_orbs: states_view(self.shown_orbs@),
        }
    }
}

impl Default for StatesData {
    fn default() -> (r: StatesData)
        ensures
            r@.area_states.len() == 0,
            r@.shown_orbs.len() == 0,
    {
        StatesData { area_states: Vec::new(), shown_orbs: Vec::new() }
    }
}

/// What a record of an area state begins with, up to its key.
pub open spec fn area_lead() -> Seq<char> {
    "AreaState[\""@
}

/// What opens the value of an area state.
pub open spec fn area_open() -> Seq<char> {
    "{LocationState="@
}

/// What a record of a shown orb begins with, up to its key.
pub open spec fn orb_lead() -> Seq<char> {
    "ShownOrbs[\""@
}

/// What opens the value of a shown orb.
pub open spec fn orb_open() -> Seq<char> {
    "{OrbSeen="@
}

// ---------------------------------------------------------------------------
// Writing
// ---------------------------------------------------------------------------

/// The line of one record, such as `Name["key"]={Field=value};`, and a line
/// feed: `lead` is `Name["` and `open` is `{Field=`.
pub open spec fn record_line(lead: Seq<char>, open: Seq<char>, key: Seq<char>, value: int) -> Seq<
    char,
> {
    lead + key + "\"]="@ + open + int_text(value) + "};\n"@
}

/// The lines of the entries from index `i` on.
pub open spec fn record_lines(lead: Seq<char>, open: Seq<char>, es: StateEntries, i: int) -> Seq<
    char,
>
    decreases es.len() - i,
{
    if 0 <= i < es.len() {
        record_line(lead, open, es[i].0, es[i].1 as int) + record_lines(lead, open, es, i + 1)
    } else {
        Seq::empty()
    }
}

/// `sorted` with the entry `e` before the first entry whose key comes after
/// the key of `e`.
pub open spec fn insert_sorted(sorted: StateEntries, e: (Seq<char>, i64)) -> StateEntries {
    sorted.insert(insert_place(sorted, e.0), e)
}

/// The index of the first entry of `sorted` whose key comes after `key`, or the
/// length where there is none.
pub open spec fn insert_place(sorted: StateEntries, key: Seq<char>) -> int
    decreases sorted.len(),
{
    if sorted.len() == 0 {
        0
    } else if text_lt(key, sorted[0].0) {
        0
    } else {
        1 + insert_place(sorted.drop_first(), key)
    }
}

/// The first `n` entries in ascending order of their keys; among entries with
/// one key, the order in which they stood.
pub open spec fn sort_entries(es: StateEntries, n: int) -> StateEntries
    decreases n,
{
    if n <= 0 || n > es.len() {
        Seq::empty()
    } else {
        insert_sorted(sort_entries(es, n - 1), es[n - 1])
    }
}

/// The entries in ascending order of their keys.
pub open spec fn sorted_entries(es: StateEntries) -> StateEntries {
    sort_entries(es, es.len() as int)
}

/// The text of the states: the area states, then the shown orbs, each in
/// ascending order of the keys, one record per line.
pub open spec fn spec_serialize(m: StatesModel) -> Seq<char> {
    record_lines(area_lead(), area_open(), sorted_entries(m.area_states), 0) + record_lines(
        orb_lead(),
        orb_open(),
        sorted_entries(m.shown_orbs),
        0,
    )
}

/// The keys of `es` ascend strictly.
pub open spec fn keys_ascend(es: StateEntries) -> bool {
    forall|i: int, j: int|
        0 <= i < j < es.len() ==> text_lt((#[trigger] es[i]).0, (#[trigger] es[j]).0)
}

/// The indices at which the entries of `es` stand after sorting.
fn sorted_order(es: &Vec<(String, i64)>) -> (order: Vec<usize>)
    ensures
        order.len() == es.len(),
        forall|k: int| 0 <= k < order.len() ==> (#[trigger] order@[k]) < es.len(),
        sorted_entries(states_view(es@)) == Seq::new(
            order.len() as nat,
            |k: int| states_view(es@)[order@[k] as int],
        ),
{
    let ghost ev = states_view(es@);
    let mut order: Vec<usize> = Vec::new();
    let mut n: usize = 0;
    assert(sort_entries(ev, 0) =~= Seq::new(0, |k: int| ev[order@[k] as int]));
    while n < es.len()
        invariant
            n <= es.len(),
            order.len() == n,
            ev == states_view(es@),
            forall|k: int| 0 <= k < order.len() ==> (#[trigger] order@[k]) < es.len(),
            sort_entries(ev, n as int) == Seq::new(
                order.len() as nat,
                |k: int| ev[order@[k] as int],
            ),
        decreases es.len() - n,
    {
        let ghost sorted = sort_entries(ev, n as int);
        let ghost old_order = order@;
        let key = es[n].0.as_str();
        let mut at: usize = 0;
        assert(sorted.skip(0) =~= sorted);
        while at < order.len() && !text_before(key, es[order[at]].0.as_str())
            invariant
                at <= order.len(),
                order.len() == n,
                n < es.len(),
                ev == states_view(es@),
                key@ == ev[n as int].0,
                forall|k: int| 0 <= k < order.len() ==> (#[trigger] order@[k]) < es.len(),
                sorted == Seq::new(order.len() as nat, |k: int| ev[order@[k] as int]),
                insert_place(sorted, key@) == at + insert_place(sorted.skip(at as int), key@),
            decreases order.len() - at,
        {
            assert(sorted.skip(at as int).drop_first() =~= sorted.skip(at + 1));
            assert(sorted.skip(at as int)[0] == sorted[at as int]);
            at += 1;
        }
        proof {
            if at < order.len() {
                assert(sorted.skip(at as int)[0] == sorted[at as int]);
            } else {
                assert(sorted.skip(at as int).len() == 0);
            }
        }
        order.insert(at, n);
        assert(sort_entries(ev, n + 1) =~= Seq::new(
            order.len() as nat,
            |k: int| ev[order@[k] as int],
        ));
        n += 1;
    }
    order
}

/// Appends the lines of the entries, in ascending order of their keys.
fn push_records(out: &mut String, lead: &str, open: &str, es: &Vec<(String, i64)>)
    ensures
        final(out)@ == old(out)@ + record_lines(
            lead@,
            open@,
            sorted_entries(states_view(es@)),
            0,
        ),
{
    let order = sorted_order(es);
    let ghost sorted = sorted_entries(states_view(es@));
    let mut k: usize = 0;
    while k < order.len()
        invariant
            k <= order.len(),
            order.len() == es.len(),
            forall|j: int| 0 <= j < order.len() ==> (#[trigger] order@[j]) < es.len(),
            sorted == Seq::new(order.len() as nat, |j: int| states_view(es@)[order@[j] as int]),
            old(out)@ + record_lines(lead@, open@, sorted, 0) == out@ + record_lines(
                lead@,
                open@,
                sorted,
                k as int,
            ),
        decreases order.len() - k,
    {
        let entry = &es[order[k]];
        let ghost before = out@;
        push_text(out, lead);
        push_text(out, entry.0.as_str());
        push_text(out, "\"]=");
        push_text(out, open);
        push_integer(out, entry.1);
        push_text(out, "};\n");
        assert(out@ =~= before + record_line(
            lead@,
            open@,
            sorted[k as int].0,
            sorted[k as int].1 as int,
        ));
        assert(out@ + record_lines(lead@, open@, sorted, k + 1) =~= before + record_lines(
            lead@,
            open@,
            sorted,
            k as int,
        ));
        k += 1;
    }
    assert(out@ =~= old(out)@ + record_lines(lead@, open@, sorted, 0));
}

/// The text of the states: one record per line, the area states before the
/// shown orbs, each in ascending order of the keys. Where every key and value
/// is fit for it, reading the text gives the states back in that order.
pub fn serialize_states(data: &StatesData) -> (r: String)
    ensures
        r@ == spec_serialize(data@),
        crate::value::keys_unique(data@.area_states) ==> keys_ascend(
            sorted_entries(data@.area_states),
        ),
        crate::value::keys_unique(data@.shown_orbs) ==> keys_ascend(
            sorted_entries(data@.shown_orbs),
        ),
        crate::states_proofs::states_ok(data@) ==> spec_parse_states(r@).area_states
            == sorted_entries(data@.area_states) && spec_parse_states(r@).shown_orbs
            == sorted_entries(data@.shown_orbs),
{
    proof {
        if crate::value::keys_unique(data@.area_states) {
            crate::states_proofs::lemma_sorted_lookup(data@.area_states, Seq::empty());
        }
        if crate::value::keys_unique(data@.shown_orbs) {
            crate::states_proofs::lemma_sorted_lookup(data@.shown_orbs, Seq::empty());
        }
        if crate::states_proofs::states_ok(data@) {
            crate::states_proofs::lemma_states_round_trip(data@);
        }
    }
    let mut sb = String::new();
    push_records(&mut sb, "AreaState[\"", "{LocationState=", &data.area_states);
    push_records(&mut sb, "ShownOrbs[\"", "{OrbSeen=", &data.shown_orbs);
    assert(sb@ =~= spec_serialize(data@));
    sb
}

// ---------------------------------------------------------------------------
// Reading
// ---------------------------------------------------------------------------

/// Whether `c` is white space: a character with the Unicode property
/// `White_Space`.
pub open spec fn is_space(c: char) -> bool {
    let u = c as u32;
    (0x09 <= u <= 0x0D) || u == 0x20 || u == 0x85 || u == 0xA0 || u == 0x1680 || (0x2000 <= u
        <= 0x200A) || u == 0x2028 || u == 0x2029 || u == 0x202F || u == 0x205F || u == 0x3000
}

/// The index of the first character from `pos` on that is no white space.
pub open spec fn skip_spaces(s: Seq<char>, pos: int) -> int
    decreases s.len() - pos,
{
    if 0 <= pos < s.len() && is_space(s[pos]) {
        skip_spaces(s, pos + 1)
    } else {
        pos
    }
}

/// The index of the first character from `pos` on that is no decimal digit.
pub open spec fn digits_end(s: Seq<char>, pos: int) -> int
    decreases s.len() - pos,
{
    if 0 <= pos < s.len() && is_digit(s[pos]) {
        digits_end(s, pos + 1)
    } else {
        pos
    }
}

/// `lit` stands in `s` at `pos`.
pub open spec fn starts_with(s: Seq<char>, pos: int, lit: Seq<char>) -> bool {
    0 <= pos && pos + lit.len() <= s.len() && s.subrange(pos, pos + lit.len()) == lit
}

/// What closes a record at `pos`, after its key: `"]`, an equals sign with
/// white space around it if any, what opens the value, one or more digits and
/// `}`. The result is where the digits start, where they end, and where the
/// record ends.
pub open spec fn tail_at(s: Seq<char>, pos: int, open: Seq<char>) -> Option<(int, int, int)> {
    if starts_with(s, pos, "\"]"@) {
        let a = skip_spaces(s, pos + 2);
        if 0 <= a < s.len() && s[a] == '=' {
            let b = skip_spaces(s, a + 1);
            if starts_with(s, b, open) {
                let d0 = b + open.len();
                let d1 = digits_end(s, d0);
                if d0 < d1 < s.len() && s[d1] == '}' {
                    Some((d0, d1, d1 + 1))
                } else {
                    None
                }
            } else {
                None
            }
        } else {
            None
        }
    } else {
        None
    }
}

/// The end of the shortest key that starts at `start`, ends at `end` or later,
/// holds no line feed and is followed by what closes a record.
pub open spec fn key_end(s: Seq<char>, start: int, end: int, open: Seq<char>) -> Option<int>
    decreases s.len() - end,
{
    if end <= start || end >= s.len() {
        None
    } else if s[end - 1] == '\n' {
        None
    } else if tail_at(s, end, open) is Some {
        Some(end)
    } else {
        key_end(s, start, end + 1, open)
    }
}

/// One record that was found: its key, its value, and where it ends.
pub struct Record {
    pub key: Seq<char>,
    pub value: i64,
    pub end: int,
}

/// The value that digits denote: the number, or 0 where it is too large.
pub open spec fn digits_value(ds: Seq<char>) -> i64 {
    if dec_value(ds) <= i64::MAX {
        dec_value(ds) as i64
    } else {
        0
    }
}

/// The record that starts at `pos`: `lead`, the shortest key of one or more
/// characters without a line feed, and what closes the record.
pub open spec fn record_at(s: Seq<char>, pos: int, lead: Seq<char>, open: Seq<char>) -> Option<
    Record,
> {
    if starts_with(s, pos, lead) {
        let start = pos + lead.len();
        match key_end(s, start, start + 1, open) {
            Some(end) => match tail_at(s, end, open) {
                Some((d0, d1, after)) => Some(
                    Record {
                        key: s.subrange(start, end),
                        value: digits_value(s.subrange(d0, d1)),
                        end: after,
                    },
                ),
                None => None,
            },
            None => None,
        }
    } else {
        None
    }
}

/// The records of `s` from `pos` on, put into `acc`: each the first that starts
/// at or after the end of the one before. A key that comes again replaces the
/// value it had.
pub open spec fn records_from(
    s: Seq<char>,
    pos: int,
    acc: StateEntries,
    lead: Seq<char>,
    open: Seq<char>,
) -> StateEntries
    decreases s.len() - pos,
{
    if pos < 0 || pos >= s.len() {
        acc
    } else {
        match record_at(s, pos, lead, open) {
            Some(r) => if pos < r.end <= s.len() {
                records_from(s, r.end, put(acc, r.key, r.value), lead, open)
            } else {
                acc
            },
            None => records_from(s, pos + 1, acc, lead, open),
        }
    }
}

/// The states that a text holds.
pub open spec fn spec_parse_states(s: Seq<char>) -> StatesModel {
    StatesModel {
        area_states: records_from(s, 0, Seq::empty(), area_lead(), area_open()),
        shown_orbs: records_from(s, 0, Seq::empty(), orb_lead(), orb_open()),
    }
}

/// Whether `c` is white space.
pub fn space_char(c: char) -> (r: bool)
    ensures
        r == is_space(c),
{
    let u = c as u32;
    (0x09 <= u && u <= 0x0D) || u == 0x20 || u == 0x85 || u == 0xA0 || u == 0x1680 || (0x2000 <= u
        && u <= 0x200A) || u == 0x2028 || u == 0x2029 || u == 0x202F || u == 0x205F || u == 0x3000
}

/// Whether `c` is a decimal digit.
pub fn decimal_digit(c: char) -> (r: bool)
    ensures
        r == is_digit(c),
{
    '0' <= c && c <= '9'
}

fn after_spaces(s: &Vec<char>, pos: usize) -> (r: usize)
    requires
        pos <= s.len(),
    ensures
        r == skip_spaces(s@, pos as int),
        pos <= r <= s.len(),
{
    let mut i = pos;
    while i < s.len() && space_char(s[i])
        invariant
            pos <= i <= s.len(),
            skip_spaces(s@, pos as int) == skip_spaces(s@, i as int),
        decreases s.len() - i,
    {
        i += 1;
    }
    i
}

fn after_digits(s: &Vec<char>, pos: usize) -> (r: usize)
    requires
        pos <= s.len(),
    ensures
        r == digits_end(s@, pos as int),
        pos <= r <= s.len(),
        all_digits(s@.subrange(pos as int, r as int)),
{
    let mut i = pos;
    while i < s.len() && decimal_digit(s[i])
        invariant
            pos <= i <= s.len(),
            digits_end(s@, pos as int) == digits_end(s@, i as int),
            all_digits(s@.subrange(pos as int, i as int)),
        decreases s.len() - i,
    {
        assert(s@.subrange(pos as int, i + 1) =~= s@.subrange(pos as int, i as int).push(
            s@[i as int],
        ));
        i += 1;
    }
    i
}

fn has_at(s: &Vec<char>, pos: usize, lit: &Vec<char>) -> (r: bool)
    requires
        pos <= s.len(),
    ensures
        r == starts_with(s@, pos as int, lit@),
{
    if s.len() - pos < lit.len() {
        return false;
    }
    let mut i: usize = 0;
    assert(s@.subrange(pos as int, pos + 0) =~= lit@.take(0));
    while i < lit.len()
        invariant
            i <= lit.len(),
            pos + lit.len() <= s.len(),
            s@.subrange(pos as int, pos + i) == lit@.take(i as int),
        decreases lit.len() - i,
    {
        if s[pos + i] != lit[i] {
            assert(s@.subrange(pos as int, pos + lit.len())[i as int] != lit@[i as int]);
            return false;
        }
        assert(s@.subrange(pos as int, pos + i + 1) =~= s@.subrange(pos as int, pos + i).push(
            s@[pos + i],
        ));
        assert(lit@.take(i + 1) =~= lit@.take(i as int).push(lit@[i as int]));
        i += 1;
    }
    assert(lit@.take(lit.len() as int) =~= lit@);
    true
}

fn close_at(s: &Vec<char>, pos: usize, close: &Vec<char>, open: &Vec<char>) -> (r: Option<
    (usize, usize, usize),
>)
    requires
        pos <= s.len(),
        close@ == "\"]"@,
    ensures
        match tail_at(s@, pos as int, open@) {
            Some((d0, d1, after)) => r == Some((d0 as usize, d1 as usize, after as usize)) && pos
                < d0 < d1 < after <= s.len() && all_digits(s@.subrange(d0, d1)),
            None => r is None,
        },
{
    proof {
        reveal_strlit("\"]");
    }
    if !has_at(s, pos, close) {
        return None;
    }
    let a = after_spaces(s, pos + 2);
    if !(a < s.len() && s[a] == '=') {
        return None;
    }
    let b = after_spaces(s, a + 1);
    if !has_at(s, b, open) {
        return None;
    }
    let d0 = b + open.len();
    let d1 = after_digits(s, d0);
    if d0 < d1 && d1 < s.len() && s[d1] == '}' {
        Some((d0, d1, d1 + 1))
    } else {
        None
    }
}

/// The value that the digits `s[from..to]` denote.
fn value_of_digits(s: &Vec<char>, from: usize, to: usize) -> (r: i64)
    requires
        from <= to <= s.len(),
        all_digits(s@.subrange(from as int, to as int)),
    ensures
        r == digits_value(s@.subrange(from as int, to as int)),
{
    let ghost ds = s@.subrange(from as int, to as int);
    let mut acc: i64 = 0;
    let mut over = false;
    let mut i = from;
    assert(s@.subrange(from as int, from as int) =~= Seq::<char>::empty());
    while i < to
        invariant
            from <= i <= to <= s.len(),
            ds == s@.subrange(from as int, to as int),
            all_digits(ds),
            acc >= 0,
            !over ==> acc == dec_value(s@.subrange(from as int, i as int)),
            over ==> dec_value(s@.subrange(from as int, i as int)) > i64::MAX,
        decreases to - i,
    {
        let c = s[i];
        assert(c == ds[i - from]);
        assert(is_digit(c));
        let d = (c as u32 - 48) as i64;
        let ghost shorter = s@.subrange(from as int, i as int);
        let ghost longer = s@.subrange(from as int, i + 1);
        assert(longer.drop_last() =~= shorter);
        assert(longer.last() == c);
        assert(dec_value(longer) == dec_value(shorter) * 10 + d);
        if !over {
            if acc > (i64::MAX - d) / 10 {
                over = true;
            } else {
                acc = acc * 10 + d;
            }
        }
        i += 1;
    }
    assert(s@.subrange(from as int, i as int) =~= ds);
    if over {
        0
    } else {
        acc
    }
}

/// The index of the first entry of `entries` whose key is `key`.
fn find_state(entries: &Vec<(String, i64)>, key: &str) -> (r: Option<usize>)
    ensures
        match r {
            Some(i) => key_index(states_view(entries@), key@) == Some(i as int) && i
                < entries.len(),
            None => key_index(states_view(entries@), key@) is None,
        },
{
    let r = find_key(entries, key);
    proof {
        let ev = states_view(entries@);
        lemma_key_index(ev, key@);
        match r {
            Some(i) => {
                assert(ev[i as int].0 == key@);
                assert forall|j: int| 0 <= j < i implies (#[trigger] ev[j]).0 != key@ by {
                    assert(entries@[j].0@ != key@);
                }
                lemma_key_index_is(ev, key@, i as int);
            },
            None => {
                if let Some(i) = key_index(ev, key@) {
                    assert(entries@[i].0@ != key@);
                }
            },
        }
    }
    r
}

/// Puts `value` under `key`: over the value that the key holds already, else as
/// a new last entry.
pub fn state_insert(entries: &mut Vec<(String, i64)>, key: String, value: i64)
    ensures
        states_view(final(entries)@) == put(states_view(old(entries)@), key@, value),
{
    match find_state(entries, key.as_str()) {
        Some(i) => {
            let slot: &mut (String, i64) = &mut entries[i];
            *slot = (key, value);
            assert(states_view(entries@) =~= put(states_view(old(entries)@), key@, value));
        },
        None => {
            entries.push((key, value));
            assert(states_view(entries@) =~= put(states_view(old(entries)@), key@, value));
        },
    }
}

/// The end of the shortest key that starts at `start`, with what closes the
/// record after it.
fn find_close(s: &Vec<char>, start: usize, close: &Vec<char>, open: &Vec<char>) -> (r: Option<
    (usize, usize, usize, usize),
>)
    requires
        start <= s.len(),
        close@ == "\"]"@,
    ensures
        match key_end(s@, start as int, start + 1, open@) {
            Some(e) => r matches Some((end, d0, d1, after)) && end == e && tail_at(s@, e, open@)
                == Some((d0 as int, d1 as int, after as int)) && start < end < d0 < d1 < after
                <= s.len() && all_digits(s@.subrange(d0 as int, d1 as int)),
            None => r is None,
        },
{
    if start >= s.len() {
        return None;
    }
    let mut end = start + 1;
    while end < s.len() && s[end - 1] != '\n'
        invariant
            start < end <= s.len(),
            close@ == "\"]"@,
            key_end(s@, start as int, start + 1, open@) == key_end(
                s@,
                start as int,
                end as int,
                open@,
            ),
        decreases s.len() - end,
    {
        match close_at(s, end, close, open) {
            Some((d0, d1, after)) => {
                return Some((end, d0, d1, after));
            },
            None => {},
        }
        end += 1;
    }
    None
}

/// The records of `s` that begin with `lead` and whose value `open` opens.
fn scan_records(s: &Vec<char>, lead: &Vec<char>, open: &Vec<char>) -> (r: Vec<(String, i64)>)
    ensures
        states_view(r@) == records_from(s@, 0, Seq::empty(), lead@, open@),
{
    let close = chars_of("\"]");
    let mut found: Vec<(String, i64)> = Vec::new();
    let mut pos: usize = 0;
    assert(states_view(found@) =~= Seq::empty());
    while pos < s.len()
        invariant
            pos <= s.len(),
            close@ == "\"]"@,
            records_from(s@, 0, Seq::empty(), lead@, open@) == records_from(
                s@,
                pos as int,
                states_view(found@),
                lead@,
                open@,
            ),
        decreases s.len() - pos,
    {
        let mut next = pos + 1;
        if has_at(s, pos, lead) {
            let start = pos + lead.len();
            match find_close(s, start, &close, open) {
                Some((end, d0, d1, after)) => {
                    let key = string_of(s, start, end);
                    let value = value_of_digits(s, d0, d1);
                    state_insert(&mut found, key, value);
                    next = after;
                },
                None => {},
            }
        }
        pos = next;
    }
    found
}

/// Reads the text states: every record of an area state and every record of a
/// shown orb that the text holds, wherever it stands. A key that comes again
/// replaces the value it had. The integer of a record is made of the digits `0`
/// to `9` alone: where a decimal digit of another script stands in its place,
/// there is no record, and nothing is read for the key.
pub fn parse_states(content: &str) -> (r: StatesData)
    ensures
        r@ == spec_parse_states(content@),
        crate::value::keys_unique(r@.area_states),
        crate::value::keys_unique(r@.shown_orbs),
{
    let s = chars_of(content);
    proof {
        crate::states_proofs::lemma_records_unique(
            content@,
            0,
            Seq::empty(),
            area_lead(),
            area_open(),
        );
        crate::states_proofs::lemma_records_unique(
            content@,
            0,
            Seq::empty(),
            orb_lead(),
            orb_open(),
        );
    }
    let area_lead_chars = chars_of("AreaState[\"");
    let area_open_chars = chars_of("{LocationState=");
    let orb_lead_chars = chars_of("ShownOrbs[\"");
    let orb_open_chars = chars_of("{OrbSeen=");
    let area_states = scan_records(&s, &area_lead_chars, &area_open_chars);
    let shown_orbs = scan_records(&s, &orb_lead_chars, &orb_open_chars);
    StatesData { area_states, shown_orbs }
}

} // verus!
