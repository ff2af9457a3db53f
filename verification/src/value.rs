//! The tagged value of the binary database and its mathematical model.

use vstd::prelude::*;
use crate::text::{copy_text, same_text};

verus! {

/// A value of the binary database. A number is held as the 64 bits of its
/// IEEE-754 double. A table holds its entries in the order in which their keys
/// were first inserted.
#[derive(Debug, PartialEq)]
pub enum LuaValue {
    String(String),
    Number(u64),
    Boolean(bool),
    Table(Vec<(String, LuaValue)>),
}

/// The entries of a table: text keys with their values.
pub type LuaTable = Vec<(String, LuaValue)>;

/// What a `LuaValue` stands for.
pub enum LuaModel {
    Text(Seq<char>),
    Number(u64),
    Boolean(bool),
    Table(Seq<(Seq<char>, LuaModel)>),
}

/// The entries of a table's model.
pub type Entries = Seq<(Seq<char>, LuaModel)>;

/// The model of a table's entries, entry by entry.
pub open spec fn table_view(t: Seq<(String, LuaValue)>) -> Entries
    decreases t,
{
    Seq::new(
        t.len(),
        |i: int|
            if 0 <= i < t.len() {
                (t[i].0@, t[i].1@)
            } else {
                (Seq::empty(), LuaModel::Boolean(false))
            },
    )
}

impl View for LuaValue {
    type V = LuaModel;

    open spec fn view(&self) -> LuaModel
        decreases self,
    {
        match self {
            LuaValue::String(s) => LuaModel::Text(s@),
            LuaValue::Number(n) => LuaModel::Number(*n),
            LuaValue::Boolean(b) => LuaModel::Boolean(*b),
            LuaValue::Table(t) => LuaModel::Table(table_view(t@)),
        }
    }
}

/// The first index at which `key` stands in `entries`, if it stands there.
pub open spec fn key_index<V>(entries: Seq<(Seq<char>, V)>, key: Seq<char>) -> Option<int>
    decreases entries.len(),
{
    if entries.len() == 0 {
        None
    } else if entries.last().0 == key && key_index(entries.drop_last(), key) is None {
        Some(entries.len() - 1)
    } else {
        key_index(entries.drop_last(), key)
    }
}

/// What `key_index` finds: the first entry with that key, or that there is none.
pub proof fn lemma_key_index<V>(entries: Seq<(Seq<char>, V)>, key: Seq<char>)
    ensures
        match key_index(entries, key) {
            Some(i) => 0 <= i < entries.len() && entries[i].0 == key && forall|j: int|
                0 <= j < i ==> (#[trigger] entries[j]).0 != key,
            None => forall|j: int| 0 <= j < entries.len() ==> (#[trigger] entries[j]).0 != key,
        },
    decreases entries.len(),
{
    if entries.len() > 0 {
        lemma_key_index(entries.drop_last(), key);
        assert(forall|j: int|
            0 <= j < entries.len() - 1 ==> entries.drop_last()[j] == #[trigger] entries[j]);
    }
}

/// An index that holds `key`, with none before it, is what `key_index` finds.
pub(crate) proof fn lemma_key_index_is<V>(entries: Seq<(Seq<char>, V)>, key: Seq<char>, i: int)
    requires
        0 <= i < entries.len(),
        entries[i].0 == key,
        forall|j: int| 0 <= j < i ==> (#[trigger] entries[j]).0 != key,
    ensures
        key_index(entries, key) == Some(i),
{
    lemma_key_index(entries, key);
}

/// No key stands twice in `entries`.
pub open spec fn keys_unique<V>(entries: Seq<(Seq<char>, V)>) -> bool {
    forall|i: int, j: int|
        0 <= i < j < entries.len() ==> (#[trigger] entries[i]).0 != (#[trigger] entries[j]).0
}

/// The value under `key`, if the key is there.
pub open spec fn lookup<V>(entries: Seq<(Seq<char>, V)>, key: Seq<char>) -> Option<V> {
    match key_index(entries, key) {
        Some(i) => Some(entries[i].1),
        None => None,
    }
}

/// `entries` with `value` under `key`: in the place of the first entry that has
/// the key already, else at the end.
pub open spec fn put<V>(entries: Seq<(Seq<char>, V)>, key: Seq<char>, value: V) -> Seq<
    (Seq<char>, V),
> {
    match key_index(entries, key) {
        Some(i) => entries.update(i, (key, value)),
        None => entries.push((key, value)),
    }
}

/// `entries` without the first entry that has `key`.
pub open spec fn without<V>(entries: Seq<(Seq<char>, V)>, key: Seq<char>) -> Seq<(Seq<char>, V)> {
    match key_index(entries, key) {
        Some(i) => entries.remove(i),
        None => entries,
    }
}

/// After `put` the key holds the value, and every other key holds what it held.
pub proof fn lemma_put<V>(entries: Seq<(Seq<char>, V)>, key: Seq<char>, value: V, other: Seq<char>)
    ensures
        lookup(put(entries, key, value), key) == Some(value),
        other != key ==> lookup(put(entries, key, value), other) == lookup(entries, other),
        keys_unique(entries) ==> keys_unique(put(entries, key, value)),
        put(entries, key, value).len() >= entries.len(),
{
    let after = put(entries, key, value);
    lemma_key_index(entries, key);
    lemma_key_index(entries, other);
    match key_index(entries, key) {
        Some(i) => {
            lemma_key_index_is(after, key, i);
            if other != key {
                match key_index(entries, other) {
                    Some(j) => {
                        lemma_key_index_is(after, other, j);
                    },
                    None => {
                        lemma_key_index(after, other);
                    },
                }
            }
        },
        None => {
            lemma_key_index_is(after, key, entries.len() as int);
            if other != key {
                match key_index(entries, other) {
                    Some(j) => {
                        lemma_key_index_is(after, other, j);
                    },
                    None => {
                        lemma_key_index(after, other);
                    },
                }
            }
        },
    }
}

impl LuaModel {
    /// No table of the value, at any depth, holds a key twice.
    pub open spec fn wf(self) -> bool
        decreases self,
    {
        match self {
            LuaModel::Table(es) => entries_wf(es),
            _ => true,
        }
    }
}

/// No key stands twice, here or in a table below.
pub open spec fn entries_wf(es: Entries) -> bool
    decreases es,
{
    keys_unique(es) && forall|i: int| 0 <= i < es.len() ==> (#[trigger] es[i]).1.wf()
}

/// The index of the first entry of `entries` whose key is `key`.
pub fn find_key<V>(entries: &Vec<(String, V)>, key: &str) -> (r: Option<usize>)
    ensures
        match r {
            Some(i) => i < entries.len() && entries@[i as int].0@ == key@ && forall|j: int|
                0 <= j < i ==> (#[trigger] entries@[j]).0@ != key@,
            None => forall|j: int| 0 <= j < entries.len() ==> (#[trigger] entries@[j]).0@ != key@,
        },
{
    let mut i: usize = 0;
    while i < entries.len()
        invariant
            i <= entries.len(),
            forall|j: int| 0 <= j < i ==> (#[trigger] entries@[j]).0@ != key@,
        decreases entries.len() - i,
    {
        if same_text(entries[i].0.as_str(), key) {
            return Some(i);
        }
        i += 1;
    }
    None
}

/// What `find_key` returns is what `key_index` names on the table's model.
pub(crate) proof fn lemma_find_in_table(t: Seq<(String, LuaValue)>, key: Seq<char>, r: Option<usize>)
    requires
        match r {
            Some(i) => i < t.len() && t[i as int].0@ == key && forall|j: int|
                0 <= j < i ==> (#[trigger] t[j]).0@ != key,
            None => forall|j: int| 0 <= j < t.len() ==> (#[trigger] t[j]).0@ != key,
        },
    ensures
        match r {
            Some(i) => key_index(table_view(t), key) == Some(i as int),
            None => key_index(table_view(t), key) is None,
        },
{
    let es = table_view(t);
    lemma_key_index(es, key);
    match r {
        Some(i) => {
            assert(es[i as int].0 == key);
            assert forall|j: int| 0 <= j < i implies (#[trigger] es[j]).0 != key by {
                assert(t[j].0@ != key);
            }
            lemma_key_index_is(es, key, i as int);
        },
        None => {
            if let Some(i) = key_index(es, key) {
                assert(t[i].0@ != key);
            }
        },
    }
}

/// Puts `value` under `key`: over the value that the key holds already, else
/// as a new last entry.
pub fn table_insert(t: &mut Vec<(String, LuaValue)>, key: String, value: LuaValue)
    ensures
        table_view(final(t)@) == put(table_view(old(t)@), key@, value@),
{
    let found = find_key(t, key.as_str());
    proof {
        lemma_find_in_table(t@, key@, found);
    }
    match found {
        Some(i) => {
            let slot: &mut (String, LuaValue) = &mut t[i];
            *slot = (key, value);
            assert(table_view(t@) =~= put(table_view(old(t)@), key@, value@));
        },
        None => {
            t.push((key, value));
            assert(table_view(t@) =~= put(table_view(old(t)@), key@, value@));
        },
    }
}

impl LuaValue {
    /// A copy of the value, tables and all.
    pub fn duplicate(&self) -> (r: LuaValue)
        ensures
            r@ == self@,
        decreases self,
    {
        match self {
            LuaValue::String(s) => LuaValue::String(copy_text(s.as_str())),
            LuaValue::Number(n) => LuaValue::Number(*n),
            LuaValue::Boolean(b) => LuaValue::Boolean(*b),
            LuaValue::Table(t) => LuaValue::Table(duplicate_table(t)),
        }
    }

    /// The bits of the number, if the value is a number.
    pub fn as_f64(&self) -> (r: Option<u64>)
        ensures
            r == (match self@ {
                LuaModel::Number(n) => Some(n),
                _ => None,
            }),
    {
        match self {
            LuaValue::Number(n) => Some(*n),
            _ => None,
        }
    }

    /// The truth value, if the value is a boolean.
    pub fn as_bool(&self) -> (r: Option<bool>)
        ensures
            r == (match self@ {
                LuaModel::Boolean(b) => Some(b),
                _ => None,
            }),
    {
        match self {
            LuaValue::Boolean(b) => Some(*b),
            _ => None,
        }
    }

    /// The text, if the value is a text.
    pub fn as_str(&self) -> (r: Option<&str>)
        ensures
            match self@ {
                LuaModel::Text(s) => r matches Some(t) && t@ == s,
                _ => r is None,
            },
    {
        match self {
            LuaValue::String(s) => Some(s.as_str()),
            _ => None,
        }
    }

    /// The entries, if the value is a table.
    pub fn as_table(&self) -> (r: Option<&Vec<(String, LuaValue)>>)
        ensures
            match self@ {
                LuaModel::Table(es) => r matches Some(t) && table_view(t@) == es,
                _ => r is None,
            },
    {
        match self {
            LuaValue::Table(t) => Some(t),
            _ => None,
        }
    }

    /// The name of the value's kind.
    pub fn kind_name(&self) -> (r: &'static str)
        ensures
            r@ == (match self@ {
                LuaModel::Text(_) => "String"@,
                LuaModel::Number(_) => "Number"@,
                LuaModel::Boolean(_) => "Boolean"@,
                LuaModel::Table(_) => "Table"@,
            }),
    {
        match self {
            LuaValue::String(_) => "String",
            LuaValue::Number(_) => "Number",
            LuaValue::Boolean(_) => "Boolean",
            LuaValue::Table(_) => "Table",
        }
    }

    /// The value as the editor shows it. `number_text` is the decimal notation
    /// of the number that the value holds, where it holds one; for any other
    /// value it is not read.
    pub fn to_display_string(&self, number_text: &str) -> (r: String)
        ensures
            r@ == display_text(self@, number_text@),
    {
        match self {
            LuaValue::String(s) => copy_text(s.as_str()),
            LuaValue::Number(_) => copy_text(number_text),
            LuaValue::Boolean(b) => copy_text(bool_word(*b)),
            LuaValue::Table(_) => copy_text("[Table]"),
        }
    }
}

/// The text under which the editor shows a value.
pub open spec fn display_text(v: LuaModel, number_text: Seq<char>) -> Seq<char> {
    match v {
        LuaModel::Text(s) => s,
        LuaModel::Number(_) => number_text,
        LuaModel::Boolean(b) => bool_text(b),
        LuaModel::Table(_) => "[Table]"@,
    }
}

/// `true` or `false`, spelled out.
pub open spec fn bool_text(b: bool) -> Seq<char> {
    if b {
        "true"@
    } else {
        "false"@
    }
}

/// `true` or `false`, spelled out.
pub fn bool_word(b: bool) -> (r: &'static str)
    ensures
        r@ == bool_text(b),
{
    if b {
        "true"
    } else {
        "false"
    }
}

/// A copy of a table's entries.
pub fn duplicate_table(t: &Vec<(String, LuaValue)>) -> (r: Vec<(String, LuaValue)>)
    ensures
        table_view(r@) == table_view(t@),
    decreases t,
{
    let mut r: Vec<(String, LuaValue)> = Vec::new();
    let mut i: usize = 0;
    while i < t.len()
        invariant
            i <= t.len(),
            r.len() == i,
            forall|j: int| 0 <= j < i ==> (#[trigger] r@[j]).0@ == t@[j].0@ && r@[j].1@ == t@[j].1@,
        decreases t.len() - i,
    {
        let entry = &t[i];
        let k = copy_text(entry.0.as_str());
        let v = entry.1.duplicate();
        r.push((k, v));
        i += 1;
    }
    assert(table_view(r@) =~= table_view(t@));
    r
}

impl Default for LuaValue {
    fn default() -> (r: LuaValue)
        ensures
            r@ == LuaModel::Text(Seq::empty()),
    {
        LuaValue::String(String::new())
    }
}

/// After the first entry under `key` was taken out of entries that hold each
/// key once, the key holds nothing, and every other key holds what it held.
pub proof fn lemma_without<V>(entries: Seq<(Seq<char>, V)>, key: Seq<char>, other: Seq<char>)
    requires
        keys_unique(entries),
    ensures
        keys_unique(without(entries, key)),
        lookup(without(entries, key), key) is None,
        other != key ==> lookup(without(entries, key), other) == lookup(entries, other),
        without(entries, key).len() <= entries.len(),
{
    let after = without(entries, key);
    lemma_key_index(entries, key);
    lemma_key_index(entries, other);
    lemma_key_index(after, key);
    match key_index(entries, key) {
        Some(i) => {
            assert forall|a: int| 0 <= a < after.len() implies #[trigger] after[a] == entries[if a
                < i {
                a
            } else {
                a + 1
            }] by {}
            assert forall|a: int, b: int| 0 <= a < b < after.len() implies (#[trigger] after[a]).0
                != (#[trigger] after[b]).0 by {
                let x = if a < i { a } else { a + 1 };
                let y = if b < i { b } else { b + 1 };
                assert(after[a] == entries[x]);
                assert(after[b] == entries[y]);
            }
            if let Some(j) = key_index(after, key) {
                let x = if j < i { j } else { j + 1 };
                assert(after[j] == entries[x]);
                assert(entries[x].0 != entries[i].0);
            }
            if other != key {
                match key_index(entries, other) {
                    Some(j) => {
                        let y = if j < i { j } else { j - 1 };
                        assert(after[y] == entries[j]);
                        assert forall|a: int| 0 <= a < y implies (#[trigger] after[a]).0
                            != other by {
                            let x = if a < i { a } else { a + 1 };
                            assert(after[a] == entries[x]);
                        }
                        lemma_key_index_is(after, other, y);
                    },
                    None => {
                        lemma_key_index(after, other);
                        if let Some(j) = key_index(after, other) {
                            let x = if j < i { j } else { j + 1 };
                            assert(after[j] == entries[x]);
                        }
                    },
                }
            }
        },
        None => {},
    }
}

/// Takes the entry under `key` out of the table, where there is one.
pub fn table_remove(t: &mut Vec<(String, LuaValue)>, key: &str)
    ensures
        table_view(final(t)@) == without(table_view(old(t)@), key@),
{
    let found = find_key(t, key);
    proof {
        lemma_find_in_table(t@, key@, found);
    }
    match found {
        Some(i) => {
            let _ = t.remove(i);
            assert(table_view(t@) =~= without(table_view(old(t)@), key@));
        },
        None => {},
    }
}

} // verus!
