//! What a reader finds in the tree of the second payload after the merge: the
//! player's fields that were written, the four lists of thoughts, and the
//! slots of the cabinet.

use vstd::prelude::*;
use crate::json::{
    edit_at, has_member, int_number, put_members, texts_node, Edit,
    JsonModel, Members,
};
use crate::models::{AbilityDisplay, SkillDisplay, ThoughtDisplay};
use crate::patch::{
    cabinet_slots, empty_slot, filled_slot, filled_slots, fills_slot, listed, patched_cabinet,
    patched_character, patched_checks, patched_second, patched_world, player_fields,
    sheet_fields, spelling, thought_kind, thought_names, with_abilities, with_skills,
    SaveUpdatePayload, ThoughtList, CABINET_SLOTS,
};
use crate::sheet::{field_twice, integer_field, named_texts, spec_text_list, SheetField};
use crate::value::{key_index, lemma_key_index, lemma_key_index_is, lemma_put, lookup, put};

verus! {

/// The node that the keys of `path` lead to, from index `i` on, through the
/// objects of the tree.
pub open spec fn node_at(v: JsonModel, path: Seq<Seq<char>>, i: int) -> Option<JsonModel>
    decreases path.len() - i,
{
    if 0 <= i < path.len() {
        match v {
            JsonModel::Object(es) => match key_index(es, path[i]) {
                Some(j) => node_at(es[j].1, path, i + 1),
                None => None,
            },
            _ => None,
        }
    } else {
        Some(v)
    }
}

/// Members with the same keys in the same places hold a key at the same index.
pub(crate) proof fn lemma_same_keys(a: Members, b: Members, key: Seq<char>)
    requires
        a.len() == b.len(),
        forall|i: int| 0 <= i < a.len() ==> (#[trigger] a[i]).0 == b[i].0,
    ensures
        key_index(a, key) == key_index(b, key),
{
    lemma_key_index(a, key);
    lemma_key_index(b, key);
    match key_index(a, key) {
        Some(i) => {
            assert(b[i].0 == a[i].0);
            assert forall|j: int| 0 <= j < i implies (#[trigger] b[j]).0 != key by {
                assert(a[j].0 == b[j].0);
            }
            lemma_key_index_is(b, key, i);
        },
        None => {
            if let Some(i) = key_index(b, key) {
                assert(a[i].0 == b[i].0);
            }
        },
    }
}

/// An edit keeps an object an object, with its keys in their places where the
/// edit is made below it.
pub(crate) proof fn lemma_edit_keeps_keys(v: JsonModel, path: Seq<Seq<char>>, i: int, edit: Edit)
    requires
        0 <= i,
    ensures
        (v is Object) == (edit_at(v, path, i, edit) is Object),
        i < path.len() && v is Object ==> edit_at(v, path, i, edit)->Object_0.len()
            == v->Object_0.len() && forall|a: int|
            0 <= a < v->Object_0.len() ==> (#[trigger] edit_at(v, path, i, edit)->Object_0[a]).0
                == v->Object_0[a].0,
{
    match v {
        JsonModel::Object(es) => {
            if i < path.len() {
                lemma_key_index(es, path[i]);
            }
        },
        _ => {},
    }
}

/// An edit that is made elsewhere leaves a node as it was: where the path of
/// the edit and the path to the node part at some key.
pub proof fn lemma_edit_elsewhere(
    v: JsonModel,
    p: Seq<Seq<char>>,
    q: Seq<Seq<char>>,
    i: int,
    d: int,
    edit: Edit,
)
    requires
        0 <= i <= d < p.len(),
        d < q.len(),
        p[d] != q[d],
        forall|k: int| i <= k < d ==> #[trigger] p[k] == q[k],
    ensures
        node_at(edit_at(v, p, i, edit), q, i) == node_at(v, q, i),
    decreases d - i,
{
    match v {
        JsonModel::Object(es) => {
            lemma_key_index(es, p[i]);
            match key_index(es, p[i]) {
                Some(j) => {
                    let after = es.update(j, (es[j].0, edit_at(es[j].1, p, i + 1, edit)));
                    lemma_same_keys(after, es, q[i]);
                    lemma_key_index(es, q[i]);
                    if i < d {
                        assert(p[i] == q[i]);
                        lemma_edit_elsewhere(es[j].1, p, q, i + 1, d, edit);
                    } else {
                        match key_index(es, q[i]) {
                            Some(j2) => {
                                assert(after[j2] == es[j2]);
                            },
                            None => {},
                        }
                    }
                },
                None => {},
            }
        },
        _ => {},
    }
}

/// A node on the way to an edit holds the edit: the node that a path leads to
/// is, after an edit whose path goes on from it, that node after the edit.
pub proof fn lemma_edit_below(
    v: JsonModel,
    p: Seq<Seq<char>>,
    q: Seq<Seq<char>>,
    i: int,
    edit: Edit,
)
    requires
        0 <= i <= q.len() <= p.len(),
        forall|k: int| i <= k < q.len() ==> #[trigger] p[k] == q[k],
        node_at(v, q, i) is Some,
    ensures
        node_at(edit_at(v, p, i, edit), q, i) == Some(
            edit_at(node_at(v, q, i)->0, p, q.len() as int, edit),
        ),
    decreases q.len() - i,
{
    if i < q.len() {
        assert(p[i] == q[i]);
        match v {
            JsonModel::Object(es) => {
                lemma_key_index(es, q[i]);
                match key_index(es, q[i]) {
                    Some(j) => {
                        let after = es.update(j, (es[j].0, edit_at(es[j].1, p, i + 1, edit)));
                        lemma_same_keys(after, es, q[i]);
                        lemma_edit_below(es[j].1, p, q, i + 1, edit);
                    },
                    None => {},
                }
            },
            _ => {},
        }
    }
}

/// The node under a key more is the member under that key of the node before.
pub proof fn lemma_node_step(v: JsonModel, q: Seq<Seq<char>>, key: Seq<char>, i: int)
    requires
        0 <= i <= q.len(),
    ensures
        node_at(v, q.push(key), i) == (match node_at(v, q, i) {
            Some(JsonModel::Object(ms)) => lookup(ms, key),
            _ => None,
        }),
    decreases q.len() - i,
{
    let longer = q.push(key);
    if i < q.len() {
        assert(longer[i] == q[i]);
        match v {
            JsonModel::Object(es) => {
                lemma_key_index(es, q[i]);
                match key_index(es, q[i]) {
                    Some(j) => {
                        lemma_node_step(es[j].1, q, key, i + 1);
                    },
                    None => {},
                }
            },
            _ => {},
        }
    } else {
        assert(longer[i] == key);
        assert(longer.len() == i + 1);
        assert(node_at(v, q, i) == Some(v));
        match v {
            JsonModel::Object(es) => {
                lemma_key_index(es, key);
                match key_index(es, key) {
                    Some(j) => {
                        assert(node_at(es[j].1, longer, i + 1) == Some(es[j].1));
                    },
                    None => {},
                }
            },
            _ => {},
        }
    }
}

/// The node that the last of the members from index `i` on holds under `key`.
pub open spec fn last_member(fields: Members, i: int, key: Seq<char>) -> Option<JsonModel>
    decreases fields.len() - i,
{
    if 0 <= i < fields.len() {
        match last_member(fields, i + 1, key) {
            Some(v) => Some(v),
            None => if fields[i].0 == key {
                Some(fields[i].1)
            } else {
                None
            },
        }
    } else {
        None
    }
}

/// After members were put in, a key of theirs holds what the last of them
/// holds under it, and any other key holds what it held.
pub proof fn lemma_put_members_lookup(acc: Members, fields: Members, i: int, key: Seq<char>)
    requires
        0 <= i <= fields.len(),
    ensures
        lookup(put_members(acc, fields, i), key) == (match last_member(fields, i, key) {
            Some(v) => Some(v),
            None => lookup(acc, key),
        }),
    decreases fields.len() - i,
{
    if i < fields.len() {
        lemma_put(acc, fields[i].0, fields[i].1, key);
        lemma_put_members_lookup(put(acc, fields[i].0, fields[i].1), fields, i + 1, key);
    }
}

/// The edits of the abilities leave a node outside the character sheet as it
/// was.
pub(crate) proof fn lemma_abilities_elsewhere(
    v: JsonModel,
    sheet: Seq<char>,
    abilities: Seq<AbilityDisplay>,
    i: int,
    q: Seq<Seq<char>>,
)
    requires
        0 <= i <= abilities.len(),
        q.len() >= 1,
        q[0] != sheet,
    ensures
        node_at(with_abilities(v, sheet, abilities, i), q, 0) == node_at(v, q, 0),
    decreases abilities.len() - i,
{
    if i < abilities.len() {
        let p = seq![sheet, abilities[i].save_key@];
        let edit = Edit::Put(crate::patch::ability_fields(abilities[i]));
        lemma_edit_elsewhere(v, p, q, 0, 0, edit);
        lemma_abilities_elsewhere(edit_at(v, p, 0, edit), sheet, abilities, i + 1, q);
    }
}

/// The edits of the skills leave a node outside the character sheet as it was.
pub(crate) proof fn lemma_skills_elsewhere(
    v: JsonModel,
    sheet: Seq<char>,
    skills: Seq<SkillDisplay>,
    i: int,
    q: Seq<Seq<char>>,
)
    requires
        0 <= i <= skills.len(),
        q.len() >= 1,
        q[0] != sheet,
    ensures
        node_at(with_skills(v, sheet, skills, i), q, 0) == node_at(v, q, 0),
    decreases skills.len() - i,
{
    if i < skills.len() {
        let p = seq![sheet, skills[i].save_key@];
        let edit = Edit::Put(crate::patch::skill_fields(skills[i]));
        lemma_edit_elsewhere(v, p, q, 0, 0, edit);
        lemma_skills_elsewhere(edit_at(v, p, 0, edit), sheet, skills, i + 1, q);
    }
}

/// The lengths and first letters of the names under which the merge writes,
/// by which they are told apart.
pub(crate) proof fn lemma_names()
    ensures
        "playerCharacter"@.len() == 15 && "PlayerCharacter"@.len() == 15,
        "sunshineClockTimeHolder"@.len() == 23 && "SunshineClockTimeHolder"@.len() == 23,
        "characterSheet"@.len() == 14 && "CharacterSheet"@.len() == 14,
        "characterSheet"@[0] == 'c' && "CharacterSheet"@[0] == 'C',
        "thoughtCabinetState"@.len() == 19,
        "thoughtCabinetViewState"@.len() == 23,
        "thoughtListState"@.len() == 16,
        "gameModeState"@.len() == 13,
        "hudState"@.len() == 8,
        "weatherState"@.len() == 12,
        "inventoryState"@.len() == 14 && "inventoryState"@[0] == 'i',
        "variousItemsHolder"@.len() == 18,
        "aquiredJournalTasks"@.len() == 19 && "aquiredJournalTasks"@[0] == 'a',
        "thoughtCabinetState"@[0] == 't',
        "failedWhiteChecksHolder"@.len() == 23 && "failedWhiteChecksHolder"@[0] == 'f',
        "sunshineClockTimeHolder"@[0] == 's' && "SunshineClockTimeHolder"@[0] == 'S',
        "healingPools"@.len() == 12,
        "XpAmount"@.len() == 8 && "xpAmount"@.len() == 8,
        "SkillPoints"@.len() == 11 && "skillPoints"@.len() == 11,
        "Level"@.len() == 5 && "level"@.len() == 5 && "Money"@.len() == 5 && "money"@.len() == 5,
        "Level"@[0] == 'L' && "level"@[0] == 'l' && "Money"@[0] == 'M' && "money"@[0] == 'm',
        "gainedItems"@.len() == 11,
        "equippedItems"@.len() == 13 && "equippedItems"@[0] == 'e',
        "gainedThoughts"@.len() == 14,
        "cookingThoughts"@.len() == 15,
        "fixedThoughts"@.len() == 13 && "fixedThoughts"@[0] == 'f',
        "forgottenThoughts"@.len() == 17,
        "slotStates"@.len() == 10,
{
    reveal_strlit("playerCharacter");
    reveal_strlit("PlayerCharacter");
    reveal_strlit("sunshineClockTimeHolder");
    reveal_strlit("SunshineClockTimeHolder");
    reveal_strlit("characterSheet");
    reveal_strlit("CharacterSheet");
    reveal_strlit("thoughtCabinetState");
    reveal_strlit("thoughtCabinetViewState");
    reveal_strlit("thoughtListState");
    reveal_strlit("gameModeState");
    reveal_strlit("hudState");
    reveal_strlit("weatherState");
    reveal_strlit("inventoryState");
    reveal_strlit("variousItemsHolder");
    reveal_strlit("aquiredJournalTasks");
    reveal_strlit("failedWhiteChecksHolder");
    reveal_strlit("healingPools");
    reveal_strlit("XpAmount");
    reveal_strlit("xpAmount");
    reveal_strlit("SkillPoints");
    reveal_strlit("skillPoints");
    reveal_strlit("Level");
    reveal_strlit("level");
    reveal_strlit("Money");
    reveal_strlit("money");
    reveal_strlit("gainedItems");
    reveal_strlit("equippedItems");
    reveal_strlit("gainedThoughts");
    reveal_strlit("cookingThoughts");
    reveal_strlit("fixedThoughts");
    reveal_strlit("forgottenThoughts");
    reveal_strlit("slotStates");
}

/// What is written after the character leaves a node as it was, where the
/// node stands under none of the holders that are written then.
pub(crate) proof fn lemma_rest_elsewhere(v: JsonModel, st: SaveUpdatePayload, q: Seq<Seq<char>>)
    requires
        q.len() >= 1,
        q[0] != "thoughtCabinetState"@,
        q[0] != "gameModeState"@,
        q[0] != "hudState"@,
        q[0] != "weatherState"@,
        q[0] != "inventoryState"@,
        q[0] != "variousItemsHolder"@,
        q[0] != "aquiredJournalTasks"@,
        q[0] != "failedWhiteChecksHolder"@,
    ensures
        node_at(patched_checks(patched_world(patched_cabinet(v, st), st), st), q, 0) == node_at(
            v,
            q,
            0,
        ),
{
    lemma_cabinet_elsewhere(v, st, q);
    let a = patched_cabinet(v, st);
    lemma_world_elsewhere(a, st, q);
    let b = patched_world(a, st);
    lemma_checks_elsewhere(b, st, q);
}

/// The cabinet is written elsewhere than under another holder.
pub(crate) proof fn lemma_cabinet_elsewhere(v: JsonModel, st: SaveUpdatePayload, q: Seq<Seq<char>>)
    requires
        q.len() >= 1,
        q[0] != "thoughtCabinetState"@,
    ensures
        node_at(patched_cabinet(v, st), q, 0) == node_at(v, q, 0),
{
    let thoughts = st.thoughts@;
    let e7 = Edit::Put(
        seq![
            (
                "thoughtListState"@,
                JsonModel::Array(crate::patch::list_records(thoughts, thoughts.len() as int)),
            ),
        ],
    );
    let p7 = seq!["thoughtCabinetState"@];
    lemma_edit_elsewhere(v, p7, q, 0, 0, e7);
    let r7 = edit_at(v, p7, 0, e7);
    let e8 = Edit::Put(seq![("slotStates"@, JsonModel::Array(cabinet_slots(thoughts)))]);
    let p8 = seq!["thoughtCabinetState"@, "thoughtCabinetViewState"@];
    lemma_edit_elsewhere(r7, p8, q, 0, 0, e8);
}

/// The game mode, the flags, the weather, the inventory, the doors and the
/// visited places are written elsewhere than under another holder.
pub(crate) proof fn lemma_world_elsewhere(v: JsonModel, st: SaveUpdatePayload, q: Seq<Seq<char>>)
    requires
        q.len() >= 1,
        q[0] != "gameModeState"@,
        q[0] != "hudState"@,
        q[0] != "weatherState"@,
        q[0] != "inventoryState"@,
        q[0] != "variousItemsHolder"@,
        q[0] != "aquiredJournalTasks"@,
    ensures
        node_at(patched_world(v, st), q, 0) == node_at(v, q, 0),
{
    let e9 = Edit::Put(seq![("gameMode"@, JsonModel::Text(st.game_mode@))]);
    let p9 = seq!["gameModeState"@];
    lemma_edit_elsewhere(v, p9, q, 0, 0, e9);
    let r9 = edit_at(v, p9, 0, e9);
    let e10 = Edit::Put(crate::patch::hud_fields(st.hud_state));
    let p10 = seq!["hudState"@];
    lemma_edit_elsewhere(r9, p10, q, 0, 0, e10);
    let r10 = edit_at(r9, p10, 0, e10);
    let e11 = Edit::Put(seq![("weatherPreset"@, int_number(st.weather_preset))]);
    let p11 = seq!["weatherState"@];
    lemma_edit_elsewhere(r10, p11, q, 0, 0, e11);
    let r11 = edit_at(r10, p11, 0, e11);
    let e12 = Edit::Put(
        seq![
            ("bullets"@, int_number(st.bullets)),
            (
                "equipment"@,
                JsonModel::Object(
                    crate::patch::equipment(st.owned_items@, st.owned_items@.len() as int),
                ),
            ),
        ],
    );
    let p12 = seq!["inventoryState"@, "inventoryViewState"@];
    lemma_edit_elsewhere(r11, p12, q, 0, 0, e12);
    let r12 = edit_at(r11, p12, 0, e12);
    let e13 = Edit::Put(
        seq![
            (
                "DoorStates"@,
                JsonModel::Object(
                    crate::patch::door_members(st.door_states@, st.door_states@.len() as int),
                ),
            ),
        ],
    );
    let p13 = seq!["variousItemsHolder"@];
    lemma_edit_elsewhere(r12, p13, q, 0, 0, e13);
    let r13 = edit_at(r12, p13, 0, e13);
    let e14 = Edit::Put(crate::patch::location_fields(st.location_flags));
    lemma_edit_elsewhere(r13, seq!["aquiredJournalTasks"@], q, 0, 0, e14);
}

/// The checks are taken out elsewhere than under another holder.
pub(crate) proof fn lemma_checks_elsewhere(v: JsonModel, st: SaveUpdatePayload, q: Seq<Seq<char>>)
    requires
        q.len() >= 1,
        q[0] != "failedWhiteChecksHolder"@,
    ensures
        node_at(patched_checks(v, st), q, 0) == node_at(v, q, 0),
{
    let e15 = Edit::Drop(crate::json::keys_view(st.reset_check_keys@));
    let p15 = seq!["failedWhiteChecksHolder"@, "WhiteCheckCache"@];
    lemma_edit_elsewhere(v, p15, q, 0, 0, e15);
    let r15 = edit_at(v, p15, 0, e15);
    let e16 = Edit::Drop(crate::json::keys_view(st.reset_seen_check_keys@));
    let p16 = seq!["failedWhiteChecksHolder"@, "SeenWhiteCheckCache"@];
    lemma_edit_elsewhere(r15, p16, q, 0, 0, e16);
}

/// A key is a member at the end of a path exactly where the path leads to
/// an object that holds the key.
pub proof fn lemma_has_member(v: JsonModel, path: Seq<Seq<char>>, i: int, key: Seq<char>)
    requires
        0 <= i <= path.len(),
    ensures
        has_member(v, path, i, key) == (node_at(v, path, i) matches Some(JsonModel::Object(ms))
            && key_index(ms, key) is Some),
    decreases path.len() - i,
{
    if i < path.len() {
        match v {
            JsonModel::Object(es) => {
                lemma_key_index(es, path[i]);
                match key_index(es, path[i]) {
                    Some(j) => {
                        lemma_has_member(es[j].1, path, i + 1, key);
                    },
                    None => {},
                }
            },
            _ => {},
        }
    }
}

/// At the last key of a path, an object is read as by `lookup`.
pub(crate) proof fn lemma_last_step(ms: Members, q: Seq<Seq<char>>)
    requires
        q.len() >= 1,
    ensures
        node_at(JsonModel::Object(ms), q, q.len() - 1) == lookup(ms, q.last()),
{
    let i = q.len() - 1;
    lemma_key_index(ms, q[i]);
    match key_index(ms, q[i]) {
        Some(j) => {
            assert(node_at(ms[j].1, q, i + 1) == Some(ms[j].1));
        },
        None => {},
    }
}

/// The key under which the merge finds the player: `playerCharacter` where
/// the root holds it, else `PlayerCharacter`.
pub open spec fn player_key(raw: JsonModel) -> Seq<char> {
    spelling(raw, Seq::empty(), "playerCharacter"@, "PlayerCharacter"@)
}

/// A name of the player's object that the merge may write under.
pub open spec fn player_written(key: Seq<char>) -> bool {
    key == "XpAmount"@ || key == "xpAmount"@ || key == "Level"@ || key == "level"@ || key
        == "SkillPoints"@ || key == "skillPoints"@ || key == "Money"@ || key == "money"@ || key
        == "healingPools"@
}

/// Law: what the merge wrote of the player is what a reader of the merged
/// tree finds. Where the root holds the player as an object that holds
/// neither the money nor the level under both of its spellings, the merged
/// tree holds the player as an object, whose integer field `money` (or
/// `Money`) reads the money of the edited state and whose field `level` (or
/// `Level`) reads its level. The fields `xp_amount` and `skill_points` read
/// the experience and the skill points of the edited state where the player
/// held them as `XpAmount` and `SkillPoints`, and not under those names. A
/// member of the player under a name that the merge does not write is the
/// member that was there.
pub proof fn lemma_player_after_merge(raw: JsonModel, st: SaveUpdatePayload)
    requires
        node_at(raw, seq![player_key(raw)], 0) matches Some(JsonModel::Object(ms)) && !field_twice(
            ms,
            "money"@,
            "Money"@,
        ) && !field_twice(ms, "level"@, "Level"@),
    ensures
        node_at(patched_second(raw, st), seq![player_key(raw)], 0) matches Some(
            JsonModel::Object(after),
        ) && integer_field(after, "money"@, "Money"@) == Some(st.money) && integer_field(
            after,
            "level"@,
            "Level"@,
        ) == Some(st.level) && forall|key: Seq<char>|
            !player_written(key) ==> lookup(after, key) == lookup(
                node_at(raw, seq![player_key(raw)], 0)->0->Object_0,
                key,
            ),
        ({
            let ms = node_at(raw, seq![player_key(raw)], 0)->0->Object_0;
            let after = node_at(patched_second(raw, st), seq![player_key(raw)], 0)->0->Object_0;
            &&& key_index(ms, "XpAmount"@) is Some && key_index(ms, "xp_amount"@) is None
                ==> integer_field(after, "xp_amount"@, "XpAmount"@) == Some(st.xp_amount)
            &&& key_index(ms, "SkillPoints"@) is Some && key_index(ms, "skill_points"@) is None
                ==> integer_field(after, "skill_points"@, "SkillPoints"@) == Some(
                st.skill_points,
            )
        }),
{
    reveal_strlit("xp_amount");
    reveal_strlit("skill_points");
    assert("xp_amount"@.len() == 9);
    assert("skill_points"@.len() == 12 && "skill_points"@[0] == 's');
    reveal_strlit("healingPools");
    assert("healingPools"@[0] == 'h');
    lemma_names();
    let top = Seq::<Seq<char>>::empty();
    let pc = player_key(raw);
    let p1 = seq![pc];
    let ms = node_at(raw, p1, 0)->0->Object_0;
    let f1 = player_fields(raw, pc, st);
    let e1 = Edit::Put(f1);
    let r1 = edit_at(raw, p1, 0, e1);
    lemma_edit_below(raw, p1, p1, 0, e1);
    let ms1 = put_members(ms, f1, 0);
    assert(node_at(r1, p1, 0) == Some(JsonModel::Object(ms1)));
    // the second edit goes below the player
    let p2 = seq![pc, "healingPools"@];
    let e2 = Edit::Put(
        seq![("ENDURANCE"@, int_number(st.health)), ("VOLITION"@, int_number(st.morale))],
    );
    let r2 = edit_at(r1, p2, 0, e2);
    lemma_edit_below(r1, p2, p1, 0, e2);
    let n2 = edit_at(JsonModel::Object(ms1), p2, 1, e2);
    lemma_edit_keeps_keys(JsonModel::Object(ms1), p2, 1, e2);
    let ms2 = n2->Object_0;
    assert(node_at(r2, p1, 0) == Some(JsonModel::Object(ms2)));
    // the others are made elsewhere
    let clock = spelling(r2, top, "sunshineClockTimeHolder"@, "SunshineClockTimeHolder"@);
    let e3 = Edit::Put(
        seq![
            ("dayCounter"@, int_number(st.day)),
            ("realDayCounter"@, int_number(st.day)),
            ("dayMinutes"@, int_number(crate::patch::day_minutes(st.hours, st.minutes))),
        ],
    );
    let p3 = seq![clock, "time"@];
    let r3 = edit_at(r2, p3, 0, e3);
    lemma_edit_elsewhere(r2, p3, p1, 0, 0, e3);
    let sheet = spelling(r3, top, "characterSheet"@, "CharacterSheet"@);
    let r4 = with_abilities(r3, sheet, st.abilities@, 0);
    lemma_abilities_elsewhere(r3, sheet, st.abilities@, 0, p1);
    let r5 = with_skills(r4, sheet, st.skills@, 0);
    lemma_skills_elsewhere(r4, sheet, st.skills@, 0, p1);
    let e6 = Edit::Put(sheet_fields(st));
    let r6 = edit_at(r5, seq![sheet], 0, e6);
    lemma_edit_elsewhere(r5, seq![sheet], p1, 0, 0, e6);
    assert(r6 == patched_character(raw, st));
    lemma_rest_elsewhere(r6, st, p1);
    assert(node_at(patched_second(raw, st), p1, 0) == Some(JsonModel::Object(ms2)));
    // what the player holds after the two edits
    assert forall|key: Seq<char>| key != "healingPools"@ implies lookup(ms2, key) == lookup(
        ms1,
        key,
    ) by {
        let q = seq![pc, key];
        lemma_edit_elsewhere(JsonModel::Object(ms1), p2, q, 1, 1, e2);
        lemma_last_step(ms1, q);
        lemma_last_step(ms2, q);
    }
    lemma_has_member(raw, p1, 0, "Money"@);
    lemma_has_member(raw, p1, 0, "Level"@);
    lemma_has_member(raw, p1, 0, "XpAmount"@);
    lemma_has_member(raw, p1, 0, "SkillPoints"@);
    reveal_with_fuel(last_member, 5);
    assert forall|key: Seq<char>| key != "healingPools"@ implies lookup(ms2, key) == (
    match last_member(f1, 0, key) {
        Some(v) => Some(v),
        None => lookup(ms, key),
    }) by {
        lemma_put_members_lookup(ms, f1, 0, key);
    }
    lemma_key_index(ms, "money"@);
    lemma_key_index(ms, "Money"@);
    lemma_key_index(ms, "level"@);
    lemma_key_index(ms, "Level"@);
    let money_key = spelling(raw, p1, "Money"@, "money"@);
    let level_key = spelling(raw, p1, "Level"@, "level"@);
    assert(last_member(f1, 0, money_key) == Some(int_number(st.money)));
    assert(last_member(f1, 0, level_key) == Some(int_number(st.level)));
    assert(lookup(ms2, money_key) == Some(int_number(st.money)));
    assert(lookup(ms2, level_key) == Some(int_number(st.level)));
    if money_key == "Money"@ {
        assert(last_member(f1, 0, "money"@) is None);
    } else {
        assert(last_member(f1, 0, "Money"@) is None);
    }
    if level_key == "Level"@ {
        assert(last_member(f1, 0, "level"@) is None);
    } else {
        assert(last_member(f1, 0, "Level"@) is None);
    }
    assert(integer_field(ms2, "money"@, "Money"@) == Some(st.money));
    assert(integer_field(ms2, "level"@, "Level"@) == Some(st.level));
    assert forall|key: Seq<char>| !player_written(key) implies lookup(ms2, key) == lookup(
        ms,
        key,
    ) by {
        assert(last_member(f1, 0, key) is None);
    }
    assert(!player_written("xp_amount"@));
    assert(!player_written("skill_points"@));
    lemma_key_index(ms, "XpAmount"@);
    lemma_key_index(ms, "SkillPoints"@);
    if key_index(ms, "XpAmount"@) is Some && key_index(ms, "xp_amount"@) is None {
        assert(spelling(raw, p1, "XpAmount"@, "xpAmount"@) == "XpAmount"@);
        assert(last_member(f1, 0, "XpAmount"@) == Some(int_number(st.xp_amount)));
        assert(lookup(ms2, "XpAmount"@) == Some(int_number(st.xp_amount)));
        assert(lookup(ms2, "xp_amount"@) is None);
    }
    if key_index(ms, "SkillPoints"@) is Some && key_index(ms, "skill_points"@) is None {
        assert(spelling(raw, p1, "SkillPoints"@, "skillPoints"@) == "SkillPoints"@);
        assert(last_member(f1, 0, "SkillPoints"@) == Some(int_number(st.skill_points)));
        assert(lookup(ms2, "SkillPoints"@) == Some(int_number(st.skill_points)));
        assert(lookup(ms2, "skill_points"@) is None);
    }
}

/// An edit below the root leaves the root's keys as they were.
pub(crate) proof fn lemma_top_keys(v: JsonModel, p: Seq<Seq<char>>, edit: Edit, key: Seq<char>)
    requires
        p.len() >= 1,
    ensures
        has_member(edit_at(v, p, 0, edit), Seq::empty(), 0, key) == has_member(
            v,
            Seq::empty(),
            0,
            key,
        ),
{
    lemma_edit_keeps_keys(v, p, 0, edit);
    match v {
        JsonModel::Object(es) => {
            lemma_same_keys(edit_at(v, p, 0, edit)->Object_0, es, key);
        },
        _ => {},
    }
}

/// The tree after the merge has written the player and the clock, before it
/// turns to the character sheet.
pub open spec fn before_sheet(raw: JsonModel, st: SaveUpdatePayload) -> JsonModel {
    let top = Seq::<Seq<char>>::empty();
    let pc = spelling(raw, top, "playerCharacter"@, "PlayerCharacter"@);
    let r1 = edit_at(raw, seq![pc], 0, Edit::Put(player_fields(raw, pc, st)));
    let r2 = edit_at(
        r1,
        seq![pc, "healingPools"@],
        0,
        Edit::Put(
            seq![("ENDURANCE"@, int_number(st.health)), ("VOLITION"@, int_number(st.morale))],
        ),
    );
    let clock = spelling(r2, top, "sunshineClockTimeHolder"@, "SunshineClockTimeHolder"@);
    edit_at(
        r2,
        seq![clock, "time"@],
        0,
        Edit::Put(
            seq![
                ("dayCounter"@, int_number(st.day)),
                ("realDayCounter"@, int_number(st.day)),
                ("dayMinutes"@, int_number(crate::patch::day_minutes(st.hours, st.minutes))),
            ],
        ),
    )
}

/// The key under which the merge finds the character sheet: `characterSheet`
/// where the root holds it, else `CharacterSheet`.
pub open spec fn sheet_key(raw: JsonModel) -> Seq<char> {
    spelling(raw, Seq::empty(), "characterSheet"@, "CharacterSheet"@)
}

/// The player and the clock are written elsewhere than under another holder,
/// and the root keeps its keys.
pub(crate) proof fn lemma_start_elsewhere(raw: JsonModel, st: SaveUpdatePayload, q: Seq<Seq<char>>)
    requires
        q.len() >= 1,
        q[0] != "playerCharacter"@,
        q[0] != "PlayerCharacter"@,
        q[0] != "sunshineClockTimeHolder"@,
        q[0] != "SunshineClockTimeHolder"@,
    ensures
        node_at(before_sheet(raw, st), q, 0) == node_at(raw, q, 0),
        sheet_key(before_sheet(raw, st)) == sheet_key(raw),
        patched_character(raw, st) == edit_at(
            with_skills(
                with_abilities(before_sheet(raw, st), sheet_key(raw), st.abilities@, 0),
                sheet_key(raw),
                st.skills@,
                0,
            ),
            seq![sheet_key(raw)],
            0,
            Edit::Put(sheet_fields(st)),
        ),
{
    let top = Seq::<Seq<char>>::empty();
    let pc = spelling(raw, top, "playerCharacter"@, "PlayerCharacter"@);
    let e1 = Edit::Put(player_fields(raw, pc, st));
    let r1 = edit_at(raw, seq![pc], 0, e1);
    lemma_edit_elsewhere(raw, seq![pc], q, 0, 0, e1);
    lemma_top_keys(raw, seq![pc], e1, "characterSheet"@);
    let e2 = Edit::Put(
        seq![("ENDURANCE"@, int_number(st.health)), ("VOLITION"@, int_number(st.morale))],
    );
    let p2 = seq![pc, "healingPools"@];
    let r2 = edit_at(r1, p2, 0, e2);
    lemma_edit_elsewhere(r1, p2, q, 0, 0, e2);
    lemma_top_keys(r1, p2, e2, "characterSheet"@);
    let clock = spelling(r2, top, "sunshineClockTimeHolder"@, "SunshineClockTimeHolder"@);
    let e3 = Edit::Put(
        seq![
            ("dayCounter"@, int_number(st.day)),
            ("realDayCounter"@, int_number(st.day)),
            ("dayMinutes"@, int_number(crate::patch::day_minutes(st.hours, st.minutes))),
        ],
    );
    let p3 = seq![clock, "time"@];
    lemma_edit_elsewhere(r2, p3, q, 0, 0, e3);
    lemma_top_keys(r2, p3, e3, "characterSheet"@);
}

/// The edits of the abilities leave the character sheet an object.
pub(crate) proof fn lemma_abilities_below(
    v: JsonModel,
    sheet: Seq<char>,
    abilities: Seq<AbilityDisplay>,
    i: int,
)
    requires
        0 <= i <= abilities.len(),
        node_at(v, seq![sheet], 0) matches Some(n) && n is Object,
    ensures
        node_at(with_abilities(v, sheet, abilities, i), seq![sheet], 0) matches Some(n)
            && n is Object,
    decreases abilities.len() - i,
{
    if i < abilities.len() {
        let p = seq![sheet, abilities[i].save_key@];
        let edit = Edit::Put(crate::patch::ability_fields(abilities[i]));
        lemma_edit_below(v, p, seq![sheet], 0, edit);
        lemma_edit_keeps_keys(node_at(v, seq![sheet], 0)->0, p, 1, edit);
        lemma_abilities_below(edit_at(v, p, 0, edit), sheet, abilities, i + 1);
    }
}

/// The edits of the skills leave the character sheet an object.
pub(crate) proof fn lemma_skills_below(
    v: JsonModel,
    sheet: Seq<char>,
    skills: Seq<SkillDisplay>,
    i: int,
)
    requires
        0 <= i <= skills.len(),
        node_at(v, seq![sheet], 0) matches Some(n) && n is Object,
    ensures
        node_at(with_skills(v, sheet, skills, i), seq![sheet], 0) matches Some(n) && n is Object,
    decreases skills.len() - i,
{
    if i < skills.len() {
        let p = seq![sheet, skills[i].save_key@];
        let edit = Edit::Put(crate::patch::skill_fields(skills[i]));
        lemma_edit_below(v, p, seq![sheet], 0, edit);
        lemma_edit_keeps_keys(node_at(v, seq![sheet], 0)->0, p, 1, edit);
        lemma_skills_below(edit_at(v, p, 0, edit), sheet, skills, i + 1);
    }
}

/// The key of the character sheet under which a list of thoughts stands.
pub open spec fn list_key(list: ThoughtList) -> Seq<char> {
    match list {
        ThoughtList::Gained => "gainedThoughts"@,
        ThoughtList::Cooking => "cookingThoughts"@,
        ThoughtList::Fixed => "fixedThoughts"@,
        ThoughtList::Forgotten => "forgottenThoughts"@,
    }
}

/// The field of the typed character sheet that shows a list of thoughts.
pub open spec fn list_field(list: ThoughtList) -> SheetField {
    match list {
        ThoughtList::Gained => SheetField::GainedThoughts,
        ThoughtList::Cooking => SheetField::CookingThoughts,
        ThoughtList::Fixed => SheetField::FixedThoughts,
        ThoughtList::Forgotten => SheetField::ForgottenThoughts,
    }
}

/// An array of texts is read as its texts.
pub proof fn lemma_texts_read(names: Seq<Seq<char>>)
    ensures
        spec_text_list(texts_node(names)) == Some(names),
{
    let items = texts_node(names)->Array_0;
    assert(spec_text_list(texts_node(names)) is Some);
    assert(spec_text_list(texts_node(names))->0 =~= names);
}

/// Law: the lists of thoughts that the merge wrote are what a reader of the
/// merged tree finds. Where the root holds the character sheet as an object,
/// the merged tree holds it as an object, whose member under the key of a
/// list is an array of texts: the names of the thoughts whose state puts them
/// on that list, in the order of the edited state. The typed sheet shows
/// them, where the catalog claims that key for no ability and no skill.
pub proof fn lemma_thoughts_after_merge(
    raw: JsonModel,
    st: SaveUpdatePayload,
    list: ThoughtList,
    ability_keys: Seq<Seq<char>>,
    skill_keys: Seq<Seq<char>>,
)
    requires
        node_at(raw, seq![sheet_key(raw)], 0) matches Some(n) && n is Object,
    ensures
        node_at(patched_second(raw, st), seq![sheet_key(raw)], 0) matches Some(
            JsonModel::Object(after),
        ) && lookup(after, list_key(list)) == Some(
            texts_node(thought_names(st.thoughts@, st.thoughts@.len() as int, list)),
        ) && (!ability_keys.contains(list_key(list)) && !skill_keys.contains(list_key(list))
            ==> named_texts(after, list_key(list), list_field(list), ability_keys, skill_keys)
            == thought_names(st.thoughts@, st.thoughts@.len() as int, list)),
{
    lemma_names();
    let sheet = sheet_key(raw);
    let q = seq![sheet];
    lemma_start_elsewhere(raw, st, q);
    let r3 = before_sheet(raw, st);
    let r4 = with_abilities(r3, sheet, st.abilities@, 0);
    lemma_abilities_below(r3, sheet, st.abilities@, 0);
    let r5 = with_skills(r4, sheet, st.skills@, 0);
    lemma_skills_below(r4, sheet, st.skills@, 0);
    let f6 = sheet_fields(st);
    let e6 = Edit::Put(f6);
    let r6 = edit_at(r5, q, 0, e6);
    lemma_edit_below(r5, q, q, 0, e6);
    let ms5 = node_at(r5, q, 0)->0->Object_0;
    let ms6 = put_members(ms5, f6, 0);
    assert(node_at(r6, q, 0) == Some(JsonModel::Object(ms6)));
    assert(r6 == patched_character(raw, st));
    lemma_rest_elsewhere(r6, st, q);
    let key = list_key(list);
    let names = thought_names(st.thoughts@, st.thoughts@.len() as int, list);
    lemma_put_members_lookup(ms5, f6, 0, key);
    reveal_with_fuel(last_member, 7);
    assert(last_member(f6, 0, key) == Some(texts_node(names)));
    lemma_texts_read(names);
}

/// A name stands on a list of thoughts exactly where one of the thoughts
/// bears it and has a state that puts it on the list.
pub proof fn lemma_thought_listed(
    thoughts: Seq<ThoughtDisplay>,
    n: int,
    list: ThoughtList,
    name: Seq<char>,
)
    requires
        0 <= n <= thoughts.len(),
    ensures
        thought_names(thoughts, n, list).contains(name) <==> exists|i: int|
            0 <= i < n && (#[trigger] thoughts[i]).name@ == name && listed(
                thought_kind(thoughts[i].state@),
                list,
            ),
    decreases n,
{
    if n > 0 {
        lemma_thought_listed(thoughts, n - 1, list, name);
        let before = thought_names(thoughts, n - 1, list);
        let now = thought_names(thoughts, n, list);
        let last = thoughts[n - 1];
        if listed(thought_kind(last.state@), list) {
            assert(now == before.push(last.name@));
            if now.contains(name) {
                let j = choose|j: int| 0 <= j < now.len() && now[j] == name;
                if j < before.len() {
                    assert(before[j] == name);
                    assert(before.contains(name));
                } else {
                    assert(thoughts[n - 1].name@ == name);
                }
            }
            if exists|i: int|
                0 <= i < n && (#[trigger] thoughts[i]).name@ == name && listed(
                    thought_kind(thoughts[i].state@),
                    list,
                ) {
                let i = choose|i: int|
                    0 <= i < n && (#[trigger] thoughts[i]).name@ == name && listed(
                        thought_kind(thoughts[i].state@),
                        list,
                    );
                if i < n - 1 {
                    assert(before.contains(name));
                    let j = choose|j: int| 0 <= j < before.len() && before[j] == name;
                    assert(now[j] == name);
                } else {
                    assert(now[before.len() as int] == name);
                }
            }
        }
    }
}

/// Law: the slots of the cabinet that the merge wrote are what a reader of
/// the merged tree finds. Where the root holds the cabinet's view as an
/// object, under `thoughtCabinetState` and `thoughtCabinetViewState`, the
/// merged tree holds it as an object whose member `slotStates` is the array
/// of the slots of the edited state's thoughts.
pub proof fn lemma_slots_after_merge(raw: JsonModel, st: SaveUpdatePayload)
    requires
        node_at(raw, seq!["thoughtCabinetState"@, "thoughtCabinetViewState"@], 0) matches Some(n)
            && n is Object,
    ensures
        node_at(
            patched_second(raw, st),
            seq!["thoughtCabinetState"@, "thoughtCabinetViewState"@],
            0,
        ) matches Some(JsonModel::Object(after)) && lookup(after, "slotStates"@) == Some(
            JsonModel::Array(cabinet_slots(st.thoughts@)),
        ),
{
    lemma_names();
    let cabinet = "thoughtCabinetState"@;
    let view = "thoughtCabinetViewState"@;
    let q = seq![cabinet, view];
    let q1 = seq![cabinet];
    assert(q1.push(view) =~= q);
    let sheet = sheet_key(raw);
    lemma_start_elsewhere(raw, st, q);
    let r3 = before_sheet(raw, st);
    let r4 = with_abilities(r3, sheet, st.abilities@, 0);
    lemma_abilities_elsewhere(r3, sheet, st.abilities@, 0, q);
    let r5 = with_skills(r4, sheet, st.skills@, 0);
    lemma_skills_elsewhere(r4, sheet, st.skills@, 0, q);
    let e6 = Edit::Put(sheet_fields(st));
    let r6 = edit_at(r5, seq![sheet], 0, e6);
    lemma_edit_elsewhere(r5, seq![sheet], q, 0, 0, e6);
    assert(r6 == patched_character(raw, st));
    assert(node_at(r6, q, 0) == node_at(raw, q, 0));
    // the list of the thoughts is put beside the view
    let thoughts = st.thoughts@;
    let f7 = seq![
        (
            "thoughtListState"@,
            JsonModel::Array(crate::patch::list_records(thoughts, thoughts.len() as int)),
        ),
    ];
    let e7 = Edit::Put(f7);
    let r7 = edit_at(r6, q1, 0, e7);
    lemma_node_step(r6, q1, view, 0);
    let m6 = node_at(r6, q1, 0)->0->Object_0;
    lemma_edit_below(r6, q1, q1, 0, e7);
    let m7 = put_members(m6, f7, 0);
    assert(node_at(r7, q1, 0) == Some(JsonModel::Object(m7)));
    lemma_put_members_lookup(m6, f7, 0, view);
    reveal_with_fuel(last_member, 3);
    assert(last_member(f7, 0, view) is None);
    lemma_node_step(r7, q1, view, 0);
    assert(node_at(r7, q, 0) == node_at(r6, q, 0));
    // the slots are put into the view
    let f8 = seq![("slotStates"@, JsonModel::Array(cabinet_slots(thoughts)))];
    let e8 = Edit::Put(f8);
    let r8 = edit_at(r7, q, 0, e8);
    lemma_edit_below(r7, q, q, 0, e8);
    let v7 = node_at(r7, q, 0)->0->Object_0;
    let v8 = put_members(v7, f8, 0);
    assert(node_at(r8, q, 0) == Some(JsonModel::Object(v8)));
    lemma_put_members_lookup(v7, f8, 0, "slotStates"@);
    assert(r8 == patched_cabinet(r6, st));
    lemma_world_elsewhere(r8, st, q);
    lemma_checks_elsewhere(patched_world(r8, st), st, q);
}

/// Where one thought alone fills a slot, the cabinet has twelve slots: the
/// first is filled with that thought's name, the eleven others are empty.
pub proof fn lemma_one_filled(thoughts: Seq<ThoughtDisplay>, k: int)
    requires
        0 <= k < thoughts.len(),
        forall|i: int|
            0 <= i < thoughts.len() ==> (fills_slot(thought_kind((#[trigger] thoughts[i]).state@))
                <==> i == k),
    ensures
        cabinet_slots(thoughts).len() == CABINET_SLOTS,
        cabinet_slots(thoughts)[0] == filled_slot(thoughts[k].name@),
        forall|i: int| 1 <= i < CABINET_SLOTS ==> #[trigger] cabinet_slots(thoughts)[i] == empty_slot(),
        filled_slot(thoughts[k].name@) != empty_slot(),
{
    lemma_filled_upto(thoughts, k, thoughts.len() as int);
    reveal_strlit("FILLED");
    reveal_strlit("EMPTY");
    let a = filled_slot(thoughts[k].name@)->Object_0;
    let b = empty_slot()->Object_0;
    assert(a[0].1 != b[0].1) by {
        assert("FILLED"@.len() != "EMPTY"@.len());
    }
}

/// The slots that the first `n` thoughts fill, where the thought at `k` alone
/// fills one.
pub(crate) proof fn lemma_filled_upto(thoughts: Seq<ThoughtDisplay>, k: int, n: int)
    requires
        0 <= k < thoughts.len(),
        0 <= n <= thoughts.len(),
        forall|i: int|
            0 <= i < thoughts.len() ==> (fills_slot(thought_kind((#[trigger] thoughts[i]).state@))
                <==> i == k),
    ensures
        filled_slots(thoughts, n) == (if n > k {
            seq![filled_slot(thoughts[k].name@)]
        } else {
            Seq::empty()
        }),
    decreases n,
{
    if n > 0 {
        lemma_filled_upto(thoughts, k, n - 1);
        if n - 1 == k {
            assert(filled_slots(thoughts, n) =~= seq![filled_slot(thoughts[k].name@)]);
        }
    }
}

} // verus!
