//! The dotted-path view of a table: every leaf under the path of the keys that
//! lead to it, and the setting of one leaf by its path.

use vstd::prelude::*;
use crate::codec::{merge_into, put_all};
use crate::text::{chars_of, copy_text, push_text, string_of};
use crate::value::{
    find_key, lemma_find_in_table, lookup, put, table_insert, table_view, Entries, LuaModel,
    LuaValue,
};

verus! {

/// The path of `key` under `prefix`: the two joined by a dot, or the key alone
/// under the empty prefix.
pub open spec fn join(prefix: Seq<char>, key: Seq<char>) -> Seq<char> {
    if prefix.len() == 0 {
        key
    } else {
        prefix + seq!['.'] + key
    }
}

/// The leaves of `es` under `prefix`, as entries from path to leaf.
pub open spec fn flatten(es: Entries, prefix: Seq<char>) -> Entries {
    flatten_into(Seq::empty(), es, 0, prefix)
}

/// The leaves of the entries of `es` from index `i` on, put into `acc` entry
/// after entry: a leaf under its path, a table by the leaves that it holds
/// under its own path.
pub open spec fn flatten_into(acc: Entries, es: Entries, i: int, prefix: Seq<char>) -> Entries
    decreases es, es.len() - i,
{
    if 0 <= i < es.len() {
        let full = join(prefix, es[i].0);
        let next = match es[i].1 {
            LuaModel::Table(nested) => put_all(acc, flatten_into(Seq::empty(), nested, 0, full), 0),
            leaf => put(acc, full, leaf),
        };
        flatten_into(next, es, i + 1, prefix)
    } else {
        acc
    }
}

/// The index of the first dot of `s`, or its length where it has none.
pub open spec fn first_dot(s: Seq<char>) -> int
    decreases s.len(),
{
    if s.len() == 0 {
        0
    } else if s[0] == '.' {
        0
    } else {
        1 + first_dot(s.drop_first())
    }
}

/// The segments of a path: the pieces between its dots. A path without a dot is
/// one segment, and so is the empty path.
pub open spec fn split_dots(s: Seq<char>) -> Seq<Seq<char>>
    decreases s.len(),
{
    let k = first_dot(s);
    if 0 <= k < s.len() {
        seq![s.take(k)] + split_dots(s.skip(k + 1))
    } else {
        seq![s]
    }
}

/// What `first_dot` finds.
pub(crate) proof fn lemma_first_dot(s: Seq<char>)
    ensures
        0 <= first_dot(s) <= s.len(),
        first_dot(s) < s.len() ==> s[first_dot(s)] == '.',
        forall|j: int| 0 <= j < first_dot(s) ==> s[j] != '.',
    decreases s.len(),
{
    if s.len() > 0 && s[0] != '.' {
        lemma_first_dot(s.drop_first());
        assert forall|j: int| 0 <= j < first_dot(s) implies s[j] != '.' by {
            if j > 0 {
                assert(s[j] == s.drop_first()[j - 1]);
            }
        }
    }
}

/// The first place that holds a dot, with none before it, is what `first_dot`
/// finds; and where no place holds one, it finds the length.
pub(crate) proof fn lemma_first_dot_is(s: Seq<char>, k: int)
    requires
        0 <= k <= s.len(),
        forall|j: int| 0 <= j < k ==> s[j] != '.',
        k < s.len() ==> s[k] == '.',
    ensures
        first_dot(s) == k,
{
    lemma_first_dot(s);
}

/// The table `es` with `value` under the path whose segments from index `i` on
/// are `segs`: every segment but the last leads into the table under it, which
/// is a fresh one where the segment held none, and the last segment holds the
/// value.
pub open spec fn spec_set(es: Entries, segs: Seq<Seq<char>>, i: int, value: LuaModel) -> Entries
    decreases segs.len() - i,
{
    if i + 1 < segs.len() {
        let child = match lookup(es, segs[i]) {
            Some(LuaModel::Table(n)) => n,
            _ => Seq::empty(),
        };
        put(es, segs[i], LuaModel::Table(spec_set(child, segs, i + 1, value)))
    } else {
        put(es, segs[i], value)
    }
}

/// The model of a list of segments.
pub open spec fn segments_view(segs: Seq<String>) -> Seq<Seq<char>> {
    Seq::new(segs.len(), |i: int| segs[i]@)
}

/// The leaves of a table under `prefix`, each under its dotted path.
pub fn flatten_lua(data: &Vec<(String, LuaValue)>, prefix: &str) -> (r: Vec<(String, LuaValue)>)
    ensures
        table_view(r@) == flatten(table_view(data@), prefix@),
        crate::value::keys_unique(table_view(r@)),
        crate::path_proofs::leaves_only(table_view(r@)),
    decreases data,
{
    let ghost tv = table_view(data@);
    proof {
        crate::path_proofs::lemma_flatten_unique(Seq::empty(), tv, 0, prefix@);
        crate::path_proofs::lemma_flatten_leaves(Seq::empty(), tv, 0, prefix@);
    }
    let mut result: Vec<(String, LuaValue)> = Vec::new();
    let mut i: usize = 0;
    assert(table_view(result@) =~= Seq::empty());
    while i < data.len()
        invariant
            i <= data.len(),
            tv == table_view(data@),
            flatten(tv, prefix@) == flatten_into(table_view(result@), tv, i as int, prefix@),
        decreases data.len() - i,
    {
        let entry = &data[i];
        let mut full = copy_text(prefix);
        if !prefix.is_empty() {
            full.push('.');
        }
        push_text(&mut full, entry.0.as_str());
        assert(full@ =~= join(prefix@, tv[i as int].0));
        match &entry.1 {
            LuaValue::Table(nested) => {
                let sub = flatten_lua(nested, full.as_str());
                merge_into(&mut result, LuaValue::Table(sub));
            },
            other => {
                let leaf = other.duplicate();
                table_insert(&mut result, full, leaf);
            },
        }
        i += 1;
    }
    result
}

/// The segments of a dotted path.
pub fn split_path(path: &str) -> (r: Vec<String>)
    ensures
        segments_view(r@) == split_dots(path@),
        r.len() >= 1,
{
    let s = chars_of(path);
    let mut segs: Vec<String> = Vec::new();
    let mut start: usize = 0;
    let mut i: usize = 0;
    assert(s@.skip(0) =~= s@);
    assert(segments_view(segs@) =~= Seq::empty());
    while i < s.len()
        invariant
            start <= i <= s.len(),
            s@ == path@,
            split_dots(s@) == segments_view(segs@) + split_dots(s@.skip(start as int)),
            forall|j: int| start <= j < i ==> s@[j] != '.',
        decreases s.len() - i,
    {
        if s[i] == '.' {
            let piece = string_of(&s, start, i);
            proof {
                let rest = s@.skip(start as int);
                lemma_first_dot_is(rest, i - start);
                assert(rest.take(i - start) =~= s@.subrange(start as int, i as int));
                assert(rest.skip(i - start + 1) =~= s@.skip(i + 1));
                assert(segments_view(segs@.push(piece)) =~= segments_view(segs@) + seq![piece@]);
            }
            segs.push(piece);
            start = i + 1;
        }
        i += 1;
    }
    let piece = string_of(&s, start, s.len());
    proof {
        let rest = s@.skip(start as int);
        lemma_first_dot_is(rest, rest.len() as int);
        assert(rest =~= s@.subrange(start as int, s.len() as int));
        assert(segments_view(segs@.push(piece)) =~= segments_view(segs@) + seq![piece@]);
    }
    segs.push(piece);
    segs
}

/// Sets `value` under the path whose segments from index `i` on are `segs`.
fn set_segments(
    entries: &mut Vec<(String, LuaValue)>,
    segs: &Vec<String>,
    i: usize,
    value: LuaValue,
)
    requires
        i < segs.len(),
    ensures
        table_view(final(entries)@) == spec_set(
            table_view(old(entries)@),
            segments_view(segs@),
            i as int,
            value@,
        ),
    decreases segs.len() - i,
{
    let ghost before = table_view(entries@);
    let ghost sv = segments_view(segs@);
    let key = copy_text(segs[i].as_str());
    assert(key@ == sv[i as int]);
    if i + 1 == segs.len() {
        table_insert(entries, key, value);
        return ;
    }
    let found = find_key(entries, key.as_str());
    proof {
        lemma_find_in_table(entries@, key@, found);
    }
    let at: usize = match found {
        Some(j) => {
            let is_table = match &entries[j].1 {
                LuaValue::Table(_) => true,
                _ => false,
            };
            if !is_table {
                let slot: &mut (String, LuaValue) = &mut entries[j];
                slot.1 = LuaValue::Table(Vec::new());
            }
            j
        },
        None => {
            entries.push((key, LuaValue::Table(Vec::new())));
            entries.len() - 1
        },
    };
    let ghost child = match lookup(before, sv[i as int]) {
        Some(LuaModel::Table(n)) => n,
        _ => Seq::empty(),
    };
    let ghost mid = entries@;
    assert(mid[at as int].1@ == LuaModel::Table(child)) by {
        assert(table_view(Seq::<(String, LuaValue)>::empty()) =~= Seq::empty());
    }
    assert(mid[at as int].0@ == sv[i as int]);
    let slot: &mut (String, LuaValue) = &mut entries[at];
    match &mut slot.1 {
        LuaValue::Table(t) => {
            set_segments(t, segs, i + 1, value);
        },
        _ => {},
    }
    assert(table_view(entries@) =~= put(
        before,
        sv[i as int],
        LuaModel::Table(spec_set(child, sv, i + 1, value@)),
    ));
}

/// Sets `value` under a dotted path. Every segment but the last leads into the
/// table under it; where a segment holds no table, a fresh one takes the place
/// of what it held. The last segment then holds the value.
pub fn set_lua_value(data: &mut Vec<(String, LuaValue)>, dotted_key: &str, value: LuaValue)
    ensures
        table_view(final(data)@) == spec_set(
            table_view(old(data)@),
            split_dots(dotted_key@),
            0,
            value@,
        ),
        crate::value::entries_wf(table_view(old(data)@)) && value@.wf() ==> crate::value::entries_wf(
            table_view(final(data)@),
        ),
{
    let parts = split_path(dotted_key);
    proof {
        if crate::value::entries_wf(table_view(data@)) && value@.wf() {
            crate::path_proofs::lemma_set_wf(table_view(data@), split_dots(dotted_key@), 0, value@);
        }
    }
    set_segments(data, &parts, 0, value);
}

} // verus!
