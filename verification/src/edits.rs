//! The edits of the binary database: a leaf is given a new text and keeps its
//! kind, and the five reputations stand under fixed paths.

use vstd::prelude::*;
use crate::models::ReputationDisplay;
use crate::path::{flatten, flatten_lua, set_lua_value, spec_set, split_dots};
use crate::text::{copy_text, same_text};
use crate::value::{find_key, lemma_find_in_table, lookup, table_view, Entries, LuaModel, LuaValue};

verus! {

/// One edit of a leaf: the dotted path of the leaf, the text that the player
/// gave, and the bits of the number that the text denotes, where it denotes
/// one.
#[derive(Debug, Clone, PartialEq, Default)]
pub struct LuaEdit {
    pub key: String,
    pub value: String,
    pub number: Option<u64>,
}

/// The value that takes the place of the leaf `held` when the player gives `text`:
/// a number stays a number, 0 where the text denotes none; a boolean stays a
/// boolean, true for the text `true` alone; anything else becomes the text.
pub open spec fn typed_value(held: LuaModel, text: Seq<char>, number: Option<u64>) -> LuaModel {
    match held {
        LuaModel::Number(_) => LuaModel::Number(
            match number {
                Some(bits) => bits,
                None => 0,
            },
        ),
        LuaModel::Boolean(_) => LuaModel::Boolean(text == "true"@),
        _ => LuaModel::Text(text),
    }
}

/// The value that takes the place of the leaf `held` when the player gives `text`.
pub fn typed_edit(held: &LuaValue, text: &str, number: Option<u64>) -> (r: LuaValue)
    ensures
        r@ == typed_value(held@, text@, number),
        (r@ is Number) == (held@ is Number),
        (r@ is Boolean) == (held@ is Boolean),
        !(r@ is Table),
{
    match held {
        LuaValue::Number(_) => LuaValue::Number(
            match number {
                Some(bits) => bits,
                None => 0,
            },
        ),
        LuaValue::Boolean(_) => LuaValue::Boolean(same_text(text, "true")),
        _ => LuaValue::String(copy_text(text)),
    }
}

/// The database after one edit: the leaf under the path holds the new value of
/// its kind; where the path leads to no leaf, the database is as it was.
pub open spec fn edited_once(
    db: Entries,
    key: Seq<char>,
    text: Seq<char>,
    number: Option<u64>,
) -> Entries {
    match lookup(flatten(db, Seq::empty()), key) {
        Some(held) => spec_set(db, split_dots(key), 0, typed_value(held, text, number)),
        None => db,
    }
}

/// The database after the edits from index `i` on, one after the other.
pub open spec fn edited_by(db: Entries, edits: Seq<LuaEdit>, i: int) -> Entries
    decreases edits.len() - i,
{
    if 0 <= i < edits.len() {
        edited_by(
            edited_once(db, edits[i].key@, edits[i].value@, edits[i].number),
            edits,
            i + 1,
        )
    } else {
        db
    }
}

/// Makes the edits, one after the other. An edit whose path leads to no leaf
/// changes nothing.
pub fn apply_lua_edits(lua_db: &mut Vec<(String, LuaValue)>, edits: &Vec<LuaEdit>)
    ensures
        table_view(final(lua_db)@) == edited_by(table_view(old(lua_db)@), edits@, 0),
{
    let ghost start = table_view(lua_db@);
    let mut i: usize = 0;
    while i < edits.len()
        invariant
            i <= edits.len(),
            edited_by(start, edits@, 0) == edited_by(table_view(lua_db@), edits@, i as int),
        decreases edits.len() - i,
    {
        let edit = &edits[i];
        let flat = flatten_lua(lua_db, "");
        proof {
            reveal_strlit("");
            assert(""@ =~= Seq::<char>::empty());
        }
        let found = find_key(&flat, edit.key.as_str());
        proof {
            lemma_find_in_table(flat@, edit.key@, found);
        }
        match found {
            Some(j) => {
                let typed = typed_edit(&flat[j].1, edit.value.as_str(), edit.number);
                set_lua_value(lua_db, edit.key.as_str(), typed);
            },
            None => {},
        }
        i += 1;
    }
}

/// The database with the five reputations under their paths.
pub open spec fn with_reputation(db: Entries, rep: ReputationDisplay) -> Entries {
    let a = spec_set(
        db,
        split_dots("reputation.communist"@),
        0,
        LuaModel::Number(rep.communist),
    );
    let b = spec_set(
        a,
        split_dots("reputation.ultraliberal"@),
        0,
        LuaModel::Number(rep.ultraliberal),
    );
    let c = spec_set(b, split_dots("reputation.moralist"@), 0, LuaModel::Number(rep.moralist));
    let d = spec_set(
        c,
        split_dots("reputation.revacholian_nationhood"@),
        0,
        LuaModel::Number(rep.nationalist),
    );
    spec_set(d, split_dots("reputation.kim"@), 0, LuaModel::Number(rep.kim))
}

/// Sets the five reputations under their paths.
pub fn apply_reputation(lua_db: &mut Vec<(String, LuaValue)>, rep: &ReputationDisplay)
    ensures
        table_view(final(lua_db)@) == with_reputation(table_view(old(lua_db)@), *rep),
{
    set_lua_value(lua_db, "reputation.communist", LuaValue::Number(rep.communist));
    set_lua_value(lua_db, "reputation.ultraliberal", LuaValue::Number(rep.ultraliberal));
    set_lua_value(lua_db, "reputation.moralist", LuaValue::Number(rep.moralist));
    set_lua_value(lua_db, "reputation.revacholian_nationhood", LuaValue::Number(rep.nationalist));
    set_lua_value(lua_db, "reputation.kim", LuaValue::Number(rep.kim));
}

/// The bits of the number under `key`, or those of 0 where the key holds no
/// number.
pub open spec fn number_under(flat: Entries, key: Seq<char>) -> u64 {
    match lookup(flat, key) {
        Some(LuaModel::Number(n)) => n,
        _ => 0,
    }
}

/// The bits of the number under `key` in the flattened database.
pub fn number_at(flat: &Vec<(String, LuaValue)>, key: &str) -> (r: u64)
    ensures
        r == number_under(table_view(flat@), key@),
{
    let found = find_key(flat, key);
    proof {
        lemma_find_in_table(flat@, key@, found);
    }
    match found {
        Some(j) => match &flat[j].1 {
            LuaValue::Number(n) => *n,
            _ => 0,
        },
        None => 0,
    }
}

/// The five reputations that the database holds under their paths, 0 where it
/// holds none.
pub fn reputation_of(lua_db: &Vec<(String, LuaValue)>) -> (r: ReputationDisplay)
    ensures
        r.communist == number_under(
            flatten(table_view(lua_db@), Seq::empty()),
            "reputation.communist"@,
        ),
        r.ultraliberal == number_under(
            flatten(table_view(lua_db@), Seq::empty()),
            "reputation.ultraliberal"@,
        ),
        r.moralist == number_under(
            flatten(table_view(lua_db@), Seq::empty()),
            "reputation.moralist"@,
        ),
        r.nationalist == number_under(
            flatten(table_view(lua_db@), Seq::empty()),
            "reputation.revacholian_nationhood"@,
        ),
        r.kim == number_under(flatten(table_view(lua_db@), Seq::empty()), "reputation.kim"@),
{
    let flat = flatten_lua(lua_db, "");
    proof {
        reveal_strlit("");
        assert(""@ =~= Seq::<char>::empty());
    }
    ReputationDisplay {
        communist: number_at(&flat, "reputation.communist"),
        ultraliberal: number_at(&flat, "reputation.ultraliberal"),
        moralist: number_at(&flat, "reputation.moralist"),
        nationalist: number_at(&flat, "reputation.revacholian_nationhood"),
        kim: number_at(&flat, "reputation.kim"),
    }
}

/// `acc` without the entries whose keys are `keys`, from index `i` on.
pub open spec fn without_keys(acc: Entries, keys: Seq<Seq<char>>, i: int) -> Entries
    decreases keys.len() - i,
{
    if 0 <= i < keys.len() {
        without_keys(crate::value::without(acc, keys[i]), keys, i + 1)
    } else {
        acc
    }
}

/// The database without the entries under `keys` in the table that the
/// segments of a path lead to, from index `i` on. Each segment leads into the
/// table under it; where a segment is missing or holds no table, the database
/// is as it was. Nothing is made and nothing is overwritten: the entries are
/// gone, and every other entry stays in its place.
pub open spec fn dropped_in(es: Entries, segs: Seq<Seq<char>>, i: int, keys: Seq<Seq<char>>) -> Entries
    decreases segs.len() - i,
{
    if 0 <= i < segs.len() {
        match crate::value::key_index(es, segs[i]) {
            Some(j) => match es[j].1 {
                LuaModel::Table(n) => es.update(
                    j,
                    (es[j].0, LuaModel::Table(dropped_in(n, segs, i + 1, keys))),
                ),
                _ => es,
            },
            None => es,
        }
    } else {
        without_keys(es, keys, 0)
    }
}

/// Takes the entries under `keys` out of the table.
pub fn drop_keys(t: &mut Vec<(String, LuaValue)>, keys: &Vec<String>)
    ensures
        table_view(final(t)@) == without_keys(
            table_view(old(t)@),
            crate::models::texts_view(keys@),
            0,
        ),
{
    let ghost kv = crate::models::texts_view(keys@);
    let ghost start = table_view(t@);
    let mut i: usize = 0;
    while i < keys.len()
        invariant
            i <= keys.len(),
            kv == crate::models::texts_view(keys@),
            without_keys(start, kv, 0) == without_keys(table_view(t@), kv, i as int),
        decreases keys.len() - i,
    {
        crate::value::table_remove(t, keys[i].as_str());
        i += 1;
    }
}

/// Takes the entries under `keys` out of the table that the segments lead to,
/// from index `i` on.
fn drop_segments(
    entries: &mut Vec<(String, LuaValue)>,
    segs: &Vec<String>,
    i: usize,
    keys: &Vec<String>,
)
    requires
        i <= segs.len(),
    ensures
        table_view(final(entries)@) == dropped_in(
            table_view(old(entries)@),
            crate::path::segments_view(segs@),
            i as int,
            crate::models::texts_view(keys@),
        ),
    decreases segs.len() - i,
{
    if i == segs.len() {
        drop_keys(entries, keys);
        return ;
    }
    let ghost before = table_view(entries@);
    let ghost sv = crate::path::segments_view(segs@);
    let found = find_key(entries, segs[i].as_str());
    proof {
        lemma_find_in_table(entries@, segs@[i as int]@, found);
        assert(sv[i as int] == segs@[i as int]@);
    }
    match found {
        Some(j) => {
            let slot: &mut (String, LuaValue) = &mut entries[j];
            match &mut slot.1 {
                LuaValue::Table(t) => {
                    drop_segments(t, segs, i + 1, keys);
                },
                _ => {},
            }
            assert(table_view(entries@) =~= dropped_in(
                before,
                sv,
                i as int,
                crate::models::texts_view(keys@),
            ));
        },
        None => {},
    }
}

/// Deletes the entries under `keys` from the table of the database that the
/// dotted path `table` leads to. Where the path leads to no table, the database
/// is as it was. The entries are deleted, not overwritten; every other entry
/// stays as it was and where it was.
pub fn drop_in_table(lua_db: &mut Vec<(String, LuaValue)>, table: &str, keys: &Vec<String>)
    ensures
        table_view(final(lua_db)@) == dropped_in(
            table_view(old(lua_db)@),
            split_dots(table@),
            0,
            crate::models::texts_view(keys@),
        ),
        crate::value::entries_wf(table_view(old(lua_db)@)) ==> crate::value::entries_wf(
            table_view(final(lua_db)@),
        ),
{
    proof {
        if crate::value::entries_wf(table_view(lua_db@)) {
            lemma_dropped_wf(
                table_view(lua_db@),
                split_dots(table@),
                0,
                crate::models::texts_view(keys@),
            );
        }
    }
    let segs = crate::path::split_path(table);
    drop_segments(lua_db, &segs, 0, keys);
}

/// The path of the table of the database that holds the checks that failed.
pub open spec fn failed_checks_table() -> Seq<char> {
    "failedWhiteChecksHolder.WhiteCheckCache"@
}

/// The path of the table of the database that holds the checks that were seen.
pub open spec fn seen_checks_table() -> Seq<char> {
    "failedWhiteChecksHolder.SeenWhiteCheckCache"@
}

/// The database after the checks that were reset were deleted from the table
/// of the failed checks and from the table of the seen checks.
pub open spec fn with_resets(db: Entries, failed: Seq<Seq<char>>, seen: Seq<Seq<char>>) -> Entries {
    dropped_in(
        dropped_in(db, split_dots(failed_checks_table()), 0, failed),
        split_dots(seen_checks_table()),
        0,
        seen,
    )
}

/// Forgets the checks that were reset: deletes the entries under
/// `reset_check_keys` from the database's table of failed checks, and those
/// under `reset_seen_check_keys` from its table of seen checks. The two tables
/// stand in the database under the paths under which the second payload holds
/// its two caches. A database without such a table is as it was.
pub fn reset_checks(
    lua_db: &mut Vec<(String, LuaValue)>,
    reset_check_keys: &Vec<String>,
    reset_seen_check_keys: &Vec<String>,
)
    ensures
        table_view(final(lua_db)@) == with_resets(
            table_view(old(lua_db)@),
            crate::models::texts_view(reset_check_keys@),
            crate::models::texts_view(reset_seen_check_keys@),
        ),
        crate::value::entries_wf(table_view(old(lua_db)@)) ==> crate::value::entries_wf(
            table_view(final(lua_db)@),
        ),
{
    drop_in_table(lua_db, "failedWhiteChecksHolder.WhiteCheckCache", reset_check_keys);
    drop_in_table(lua_db, "failedWhiteChecksHolder.SeenWhiteCheckCache", reset_seen_check_keys);
}

/// After keys were taken out of entries that hold each key once, each of the
/// keys holds nothing, and every other key holds what it held.
pub(crate) proof fn lemma_without_keys(es: Entries, keys: Seq<Seq<char>>, i: int, key: Seq<char>)
    requires
        0 <= i <= keys.len(),
        crate::value::keys_unique(es),
    ensures
        crate::value::keys_unique(without_keys(es, keys, i)),
        lookup(without_keys(es, keys, i), key) == (if exists|j: int|
            i <= j < keys.len() && keys[j] == key {
            None
        } else {
            lookup(es, key)
        }),
    decreases keys.len() - i,
{
    if i < keys.len() {
        crate::value::lemma_without(es, keys[i], key);
        let next = crate::value::without(es, keys[i]);
        lemma_without_keys(next, keys, i + 1, key);
        if keys[i] == key {
            assert(lookup(next, key) is None);
        }
    }
}

/// Entries that hold each key once, here and below, still do so after keys
/// were taken out.
pub(crate) proof fn lemma_without_keys_wf(es: Entries, keys: Seq<Seq<char>>, i: int)
    requires
        0 <= i <= keys.len(),
        crate::value::entries_wf(es),
    ensures
        crate::value::entries_wf(without_keys(es, keys, i)),
    decreases keys.len() - i,
{
    if i < keys.len() {
        let next = crate::value::without(es, keys[i]);
        crate::value::lemma_without(es, keys[i], keys[i]);
        crate::value::lemma_key_index(es, keys[i]);
        match crate::value::key_index(es, keys[i]) {
            Some(j) => {
                assert forall|a: int| 0 <= a < next.len() implies (#[trigger] next[a]).1.wf() by {
                    let x = if a < j { a } else { a + 1 };
                    assert(next[a] == es[x]);
                }
            },
            None => {},
        }
        lemma_without_keys_wf(next, keys, i + 1);
    }
}

/// A database that holds each key once, here and below, still does so after
/// entries were deleted from one of its tables.
pub(crate) proof fn lemma_dropped_wf(es: Entries, segs: Seq<Seq<char>>, i: int, keys: Seq<Seq<char>>)
    requires
        0 <= i <= segs.len(),
        crate::value::entries_wf(es),
    ensures
        crate::value::entries_wf(dropped_in(es, segs, i, keys)),
    decreases segs.len() - i,
{
    if i < segs.len() {
        crate::value::lemma_key_index(es, segs[i]);
        match crate::value::key_index(es, segs[i]) {
            Some(j) => match es[j].1 {
                LuaModel::Table(n) => {
                    assert(es[j].1.wf());
                    lemma_dropped_wf(n, segs, i + 1, keys);
                    let after = dropped_in(es, segs, i, keys);
                    assert forall|a: int, b: int| 0 <= a < b < after.len() implies (
                    #[trigger] after[a]).0 != (#[trigger] after[b]).0 by {
                        assert(after[a].0 == es[a].0);
                        assert(after[b].0 == es[b].0);
                    }
                    assert forall|a: int| 0 <= a < after.len() implies (
                    #[trigger] after[a]).1.wf() by {
                        if a != j {
                            assert(after[a] == es[a]);
                        }
                    }
                },
                _ => {},
            },
            None => {},
        }
    } else {
        lemma_without_keys_wf(es, keys, 0);
    }
}

/// After the entries under `keys` were deleted from a table that holds each key
/// once, the table holds what it held without them: each of the keys holds
/// nothing, and every other key holds what it held.
pub proof fn lemma_deleted(es: Entries, keys: Seq<Seq<char>>, key: Seq<char>)
    requires
        crate::value::keys_unique(es),
    ensures
        lookup(without_keys(es, keys, 0), key) == (if keys.contains(key) {
            None
        } else {
            lookup(es, key)
        }),
{
    lemma_without_keys(es, keys, 0, key);
    if keys.contains(key) {
        let j = choose|j: int| 0 <= j < keys.len() && keys[j] == key;
        assert(0 <= j < keys.len() && keys[j] == key);
    }
}

} // verus!
