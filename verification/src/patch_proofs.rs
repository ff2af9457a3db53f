//! What the merge leaves alone: the members of the second payload's tree that
//! the editor does not show, and the number of the cabinet's slots.

use vstd::prelude::*;
use crate::json::{
    drop_members, edit_at, items_wf, members_wf, put_members, Edit, JsonModel, Members,
};
use crate::models::{AbilityDisplay, SkillDisplay, ThoughtDisplay};
use crate::patch::{
    cabinet_slots, filled_slots, fills_slot, listed, patched_cabinet, patched_character,
    patched_checks, patched_second, patched_world, spelling, with_abilities, with_skills,
    SaveUpdatePayload, ThoughtKind, ThoughtList, CABINET_SLOTS,
};
use crate::value::{lemma_key_index};

verus! {

/// Two nodes are the same but for the members under the keys of `touched`:
/// either both are the same node, or both are objects with the same keys in
/// the same places, and with the same node under every key that is none of
/// `touched`.
pub open spec fn same_but(a: JsonModel, b: JsonModel, touched: Set<Seq<char>>) -> bool {
    a == b || (a matches JsonModel::Object(x) && b matches JsonModel::Object(y) && x.len()
        == y.len() && forall|i: int|
        0 <= i < x.len() ==> (#[trigger] x[i]).0 == y[i].0 && (!touched.contains(x[i].0)
            ==> x[i] == y[i]))
}

/// Being the same but for some members carries over from one node to the
/// next.
pub(crate) proof fn lemma_same_but_chain(
    a: JsonModel,
    b: JsonModel,
    c: JsonModel,
    touched: Set<Seq<char>>,
)
    requires
        same_but(a, b, touched),
        same_but(b, c, touched),
    ensures
        same_but(a, c, touched),
{
    if a != b && b != c {
        let x = a->Object_0;
        let y = b->Object_0;
        let z = c->Object_0;
        assert forall|i: int| 0 <= i < x.len() implies (#[trigger] x[i]).0 == z[i].0 && (
        !touched.contains(x[i].0) ==> x[i] == z[i]) by {
            assert(x[i].0 == y[i].0);
            assert(y[i].0 == z[i].0);
        }
    }
}

/// An edit that is made under a path of one key or more changes only the
/// member under the path's first key.
pub proof fn lemma_edit_touches(
    v: JsonModel,
    path: Seq<Seq<char>>,
    edit: Edit,
    touched: Set<Seq<char>>,
)
    requires
        path.len() >= 1,
        touched.contains(path[0]),
    ensures
        same_but(v, edit_at(v, path, 0, edit), touched),
{
    match v {
        JsonModel::Object(es) => {
            lemma_key_index(es, path[0]);
        },
        _ => {},
    }
}

/// The edits of the abilities change only the character sheet.
pub(crate) proof fn lemma_abilities_touch(
    v: JsonModel,
    sheet: Seq<char>,
    abilities: Seq<AbilityDisplay>,
    i: int,
    touched: Set<Seq<char>>,
)
    requires
        0 <= i <= abilities.len(),
        touched.contains(sheet),
    ensures
        same_but(v, with_abilities(v, sheet, abilities, i), touched),
    decreases abilities.len() - i,
{
    if i < abilities.len() {
        let path = seq![sheet, abilities[i].save_key@];
        let edit = Edit::Put(crate::patch::ability_fields(abilities[i]));
        let next = edit_at(v, path, 0, edit);
        lemma_edit_touches(v, path, edit, touched);
        lemma_abilities_touch(next, sheet, abilities, i + 1, touched);
        lemma_same_but_chain(v, next, with_abilities(next, sheet, abilities, i + 1), touched);
    }
}

/// The edits of the skills change only the character sheet.
pub(crate) proof fn lemma_skills_touch(
    v: JsonModel,
    sheet: Seq<char>,
    skills: Seq<SkillDisplay>,
    i: int,
    touched: Set<Seq<char>>,
)
    requires
        0 <= i <= skills.len(),
        touched.contains(sheet),
    ensures
        same_but(v, with_skills(v, sheet, skills, i), touched),
    decreases skills.len() - i,
{
    if i < skills.len() {
        let path = seq![sheet, skills[i].save_key@];
        let edit = Edit::Put(crate::patch::skill_fields(skills[i]));
        let next = edit_at(v, path, 0, edit);
        lemma_edit_touches(v, path, edit, touched);
        lemma_skills_touch(next, sheet, skills, i + 1, touched);
        lemma_same_but_chain(v, next, with_skills(next, sheet, skills, i + 1), touched);
    }
}

/// The keys of the root under which the merge of the second payload writes.
pub open spec fn holders() -> Set<Seq<char>> {
    set![
        "playerCharacter"@,
        "PlayerCharacter"@,
        "sunshineClockTimeHolder"@,
        "SunshineClockTimeHolder"@,
        "characterSheet"@,
        "CharacterSheet"@,
        "thoughtCabinetState"@,
        "gameModeState"@,
        "hudState"@,
        "weatherState"@,
        "inventoryState"@,
        "variousItemsHolder"@,
        "aquiredJournalTasks"@,
        "failedWhiteChecksHolder"@,
    ]
}

/// The player, the clock and the character sheet are written under their
/// holders alone.
pub(crate) proof fn lemma_character_keeps_rest(raw: JsonModel, st: SaveUpdatePayload)
    ensures
        same_but(raw, patched_character(raw, st), holders()),
{
    let t = holders();
    let top = Seq::<Seq<char>>::empty();
    let pc = spelling(raw, top, "playerCharacter"@, "PlayerCharacter"@);
    let e1 = Edit::Put(crate::patch::player_fields(raw, pc, st));
    let r1 = edit_at(raw, seq![pc], 0, e1);
    lemma_edit_touches(raw, seq![pc], e1, t);
    let e2 = Edit::Put(
        seq![
            ("ENDURANCE"@, crate::json::int_number(st.health)),
            ("VOLITION"@, crate::json::int_number(st.morale)),
        ],
    );
    let r2 = edit_at(r1, seq![pc, "healingPools"@], 0, e2);
    lemma_edit_touches(r1, seq![pc, "healingPools"@], e2, t);
    lemma_same_but_chain(raw, r1, r2, t);
    let clock = spelling(r2, top, "sunshineClockTimeHolder"@, "SunshineClockTimeHolder"@);
    let e3 = Edit::Put(
        seq![
            ("dayCounter"@, crate::json::int_number(st.day)),
            ("realDayCounter"@, crate::json::int_number(st.day)),
            (
                "dayMinutes"@,
                crate::json::int_number(crate::patch::day_minutes(st.hours, st.minutes)),
            ),
        ],
    );
    let r3 = edit_at(r2, seq![clock, "time"@], 0, e3);
    lemma_edit_touches(r2, seq![clock, "time"@], e3, t);
    lemma_same_but_chain(raw, r2, r3, t);
    let sheet = spelling(r3, top, "characterSheet"@, "CharacterSheet"@);
    let r4 = with_abilities(r3, sheet, st.abilities@, 0);
    lemma_abilities_touch(r3, sheet, st.abilities@, 0, t);
    lemma_same_but_chain(raw, r3, r4, t);
    let r5 = with_skills(r4, sheet, st.skills@, 0);
    lemma_skills_touch(r4, sheet, st.skills@, 0, t);
    lemma_same_but_chain(raw, r4, r5, t);
    let e6 = Edit::Put(crate::patch::sheet_fields(st));
    lemma_edit_touches(r5, seq![sheet], e6, t);
    lemma_same_but_chain(raw, r5, edit_at(r5, seq![sheet], 0, e6), t);
}

/// The cabinet of thoughts is written under its holder alone.
pub(crate) proof fn lemma_cabinet_keeps_rest(v: JsonModel, st: SaveUpdatePayload)
    ensures
        same_but(v, patched_cabinet(v, st), holders()),
{
    let t = holders();
    let thoughts = st.thoughts@;
    let e7 = Edit::Put(
        seq![
            (
                "thoughtListState"@,
                JsonModel::Array(crate::patch::list_records(thoughts, thoughts.len() as int)),
            ),
        ],
    );
    let r7 = edit_at(v, seq!["thoughtCabinetState"@], 0, e7);
    lemma_edit_touches(v, seq!["thoughtCabinetState"@], e7, t);
    let e8 = Edit::Put(seq![("slotStates"@, JsonModel::Array(cabinet_slots(thoughts)))]);
    let p8 = seq!["thoughtCabinetState"@, "thoughtCabinetViewState"@];
    lemma_edit_touches(r7, p8, e8, t);
    lemma_same_but_chain(v, r7, edit_at(r7, p8, 0, e8), t);
}

/// The game mode, the flags, the weather, the inventory, the doors and the
/// visited places are written under their holders alone.
pub(crate) proof fn lemma_world_keeps_rest(v: JsonModel, st: SaveUpdatePayload)
    ensures
        same_but(v, patched_world(v, st), holders()),
{
    let t = holders();
    let e9 = Edit::Put(seq![("gameMode"@, JsonModel::Text(st.game_mode@))]);
    let r9 = edit_at(v, seq!["gameModeState"@], 0, e9);
    lemma_edit_touches(v, seq!["gameModeState"@], e9, t);
    let e10 = Edit::Put(crate::patch::hud_fields(st.hud_state));
    let r10 = edit_at(r9, seq!["hudState"@], 0, e10);
    lemma_edit_touches(r9, seq!["hudState"@], e10, t);
    lemma_same_but_chain(v, r9, r10, t);
    let e11 = Edit::Put(seq![("weatherPreset"@, crate::json::int_number(st.weather_preset))]);
    let r11 = edit_at(r10, seq!["weatherState"@], 0, e11);
    lemma_edit_touches(r10, seq!["weatherState"@], e11, t);
    lemma_same_but_chain(v, r10, r11, t);
    let e12 = Edit::Put(
        seq![
            ("bullets"@, crate::json::int_number(st.bullets)),
            (
                "equipment"@,
                JsonModel::Object(
                    crate::patch::equipment(st.owned_items@, st.owned_items@.len() as int),
                ),
            ),
        ],
    );
    let p12 = seq!["inventoryState"@, "inventoryViewState"@];
    let r12 = edit_at(r11, p12, 0, e12);
    lemma_edit_touches(r11, p12, e12, t);
    lemma_same_but_chain(v, r11, r12, t);
    let e13 = Edit::Put(
        seq![
            (
                "DoorStates"@,
                JsonModel::Object(
                    crate::patch::door_members(st.door_states@, st.door_states@.len() as int),
                ),
            ),
        ],
    );
    let r13 = edit_at(r12, seq!["variousItemsHolder"@], 0, e13);
    lemma_edit_touches(r12, seq!["variousItemsHolder"@], e13, t);
    lemma_same_but_chain(v, r12, r13, t);
    let e14 = Edit::Put(crate::patch::location_fields(st.location_flags));
    lemma_edit_touches(r13, seq!["aquiredJournalTasks"@], e14, t);
    lemma_same_but_chain(v, r13, edit_at(r13, seq!["aquiredJournalTasks"@], 0, e14), t);
}

/// The checks are taken out under their holder alone.
pub(crate) proof fn lemma_checks_keep_rest(v: JsonModel, st: SaveUpdatePayload)
    ensures
        same_but(v, patched_checks(v, st), holders()),
{
    let t = holders();
    let e15 = Edit::Drop(crate::json::keys_view(st.reset_check_keys@));
    let p15 = seq!["failedWhiteChecksHolder"@, "WhiteCheckCache"@];
    let r15 = edit_at(v, p15, 0, e15);
    lemma_edit_touches(v, p15, e15, t);
    let e16 = Edit::Drop(crate::json::keys_view(st.reset_seen_check_keys@));
    let p16 = seq!["failedWhiteChecksHolder"@, "SeenWhiteCheckCache"@];
    lemma_edit_touches(r15, p16, e16, t);
    lemma_same_but_chain(v, r15, edit_at(r15, p16, 0, e16), t);
}

/// The merge of the second payload writes under its holders alone: the root
/// keeps its keys in their places, and every member under another key stays
/// as it was read.
pub proof fn lemma_second_keeps_rest(raw: JsonModel, st: SaveUpdatePayload)
    ensures
        same_but(raw, patched_second(raw, st), holders()),
{
    let t = holders();
    let a = patched_character(raw, st);
    let b = patched_cabinet(a, st);
    let c = patched_world(b, st);
    lemma_character_keeps_rest(raw, st);
    lemma_cabinet_keeps_rest(a, st);
    lemma_world_keeps_rest(b, st);
    lemma_checks_keep_rest(c, st);
    lemma_same_but_chain(raw, a, b, t);
    lemma_same_but_chain(raw, b, c, t);
    lemma_same_but_chain(raw, c, patched_checks(c, st), t);
}

/// The cabinet has its twelve slots at least, and no more where no more than
/// twelve thoughts fill one.
pub proof fn lemma_cabinet_slots(thoughts: Seq<ThoughtDisplay>)
    ensures
        cabinet_slots(thoughts).len() >= CABINET_SLOTS,
        filled_slots(thoughts, thoughts.len() as int).len() <= CABINET_SLOTS ==> cabinet_slots(
            thoughts,
        ).len() == CABINET_SLOTS,
{
}

/// A thought that is internalized stands among the gained thoughts and among
/// the fixed ones, and fills a slot of the cabinet; one that is only gained
/// stands among the gained thoughts alone and fills none.
pub proof fn lemma_thought_lists(kind: ThoughtKind)
    ensures
        kind == ThoughtKind::Internalized ==> listed(kind, ThoughtList::Gained) && listed(
            kind,
            ThoughtList::Fixed,
        ) && !listed(kind, ThoughtList::Cooking) && !listed(kind, ThoughtList::Forgotten)
            && fills_slot(kind),
        kind == ThoughtKind::Processing ==> listed(kind, ThoughtList::Gained) && listed(
            kind,
            ThoughtList::Cooking,
        ) && fills_slot(kind),
        kind == ThoughtKind::Gained ==> listed(kind, ThoughtList::Gained) && !listed(
            kind,
            ThoughtList::Cooking,
        ) && !listed(kind, ThoughtList::Fixed) && !listed(kind, ThoughtList::Forgotten)
            && !fills_slot(kind),
        kind == ThoughtKind::NotAcquired ==> !listed(kind, ThoughtList::Gained) && !fills_slot(
            kind,
        ),
{
}

/// Members that hold each key once still do so after a node was put in.
pub(crate) proof fn lemma_put_member_wf(ms: Members, key: Seq<char>, value: JsonModel)
    requires
        members_wf(ms),
        value.wf(),
    ensures
        members_wf(crate::value::put(ms, key, value)),
{
    let after = crate::value::put(ms, key, value);
    crate::value::lemma_put(ms, key, value, key);
    lemma_key_index(ms, key);
    assert forall|i: int| 0 <= i < after.len() implies (#[trigger] after[i]).1.wf() by {
        match crate::value::key_index(ms, key) {
            Some(j) => {
                if i != j {
                    assert(after[i] == ms[i]);
                }
            },
            None => {
                if i < ms.len() {
                    assert(after[i] == ms[i]);
                }
            },
        }
    }
}

/// Every node of the members holds each key once in its objects.
pub open spec fn values_wf(fields: Members) -> bool {
    forall|i: int| 0 <= i < fields.len() ==> (#[trigger] fields[i]).1.wf()
}

/// Members that hold each key once still do so after members were put in.
pub(crate) proof fn lemma_put_members_wf(acc: Members, fields: Members, i: int)
    requires
        0 <= i <= fields.len(),
        members_wf(acc),
        values_wf(fields),
    ensures
        members_wf(put_members(acc, fields, i)),
    decreases fields.len() - i,
{
    if i < fields.len() {
        lemma_put_member_wf(acc, fields[i].0, fields[i].1);
        lemma_put_members_wf(crate::value::put(acc, fields[i].0, fields[i].1), fields, i + 1);
    }
}

/// Members that hold each key once still do so after members were taken out.
pub(crate) proof fn lemma_drop_members_wf(acc: Members, keys: Seq<Seq<char>>, i: int)
    requires
        0 <= i <= keys.len(),
        members_wf(acc),
    ensures
        members_wf(drop_members(acc, keys, i)),
    decreases keys.len() - i,
{
    if i < keys.len() {
        let after = crate::value::without(acc, keys[i]);
        lemma_key_index(acc, keys[i]);
        match crate::value::key_index(acc, keys[i]) {
            Some(j) => {
                assert forall|a: int, b: int| 0 <= a < b < after.len() implies (
                #[trigger] after[a]).0 != (#[trigger] after[b]).0 by {
                    let x = if a < j { a } else { a + 1 };
                    let y = if b < j { b } else { b + 1 };
                    assert(after[a] == acc[x]);
                    assert(after[b] == acc[y]);
                }
                assert forall|a: int| 0 <= a < after.len() implies (#[trigger] after[a]).1.wf() by {
                    let x = if a < j { a } else { a + 1 };
                    assert(after[a] == acc[x]);
                }
            },
            None => {},
        }
        lemma_drop_members_wf(after, keys, i + 1);
    }
}

/// What an edit puts in holds each key once in its objects.
pub open spec fn edit_wf(edit: Edit) -> bool {
    match edit {
        Edit::Put(fields) => values_wf(fields),
        Edit::Drop(_) => true,
    }
}

/// A tree in which no object holds a key twice is still such a tree after an
/// edit.
pub proof fn lemma_edit_wf(v: JsonModel, path: Seq<Seq<char>>, i: int, edit: Edit)
    requires
        0 <= i <= path.len(),
        v.wf(),
        edit_wf(edit),
    ensures
        edit_at(v, path, i, edit).wf(),
    decreases path.len() - i,
{
    match v {
        JsonModel::Object(es) => {
            if i < path.len() {
                lemma_key_index(es, path[i]);
                match crate::value::key_index(es, path[i]) {
                    Some(j) => {
                        lemma_edit_wf(es[j].1, path, i + 1, edit);
                        let after = es.update(j, (es[j].0, edit_at(es[j].1, path, i + 1, edit)));
                        assert forall|a: int, b: int| 0 <= a < b < after.len() implies (
                        #[trigger] after[a]).0 != (#[trigger] after[b]).0 by {
                            assert(after[a].0 == es[a].0);
                            assert(after[b].0 == es[b].0);
                        }
                        assert forall|a: int| 0 <= a < after.len() implies (
                        #[trigger] after[a]).1.wf() by {
                            if a != j {
                                assert(after[a] == es[a]);
                            }
                        }
                    },
                    None => {},
                }
            } else {
                match edit {
                    Edit::Put(fields) => {
                        lemma_put_members_wf(es, fields, 0);
                    },
                    Edit::Drop(keys) => {
                        lemma_drop_members_wf(es, keys, 0);
                    },
                }
            }
        },
        _ => {},
    }
}

/// The edits of the abilities keep the tree one in which no object holds a key
/// twice.
pub(crate) proof fn lemma_abilities_wf(
    v: JsonModel,
    sheet: Seq<char>,
    abilities: Seq<AbilityDisplay>,
    i: int,
)
    requires
        0 <= i <= abilities.len(),
        v.wf(),
    ensures
        with_abilities(v, sheet, abilities, i).wf(),
    decreases abilities.len() - i,
{
    if i < abilities.len() {
        let path = seq![sheet, abilities[i].save_key@];
        let edit = Edit::Put(crate::patch::ability_fields(abilities[i]));
        lemma_edit_wf(v, path, 0, edit);
        lemma_abilities_wf(edit_at(v, path, 0, edit), sheet, abilities, i + 1);
    }
}

/// The edits of the skills keep the tree one in which no object holds a key
/// twice.
pub(crate) proof fn lemma_skills_wf(v: JsonModel, sheet: Seq<char>, skills: Seq<SkillDisplay>, i: int)
    requires
        0 <= i <= skills.len(),
        v.wf(),
    ensures
        with_skills(v, sheet, skills, i).wf(),
    decreases skills.len() - i,
{
    if i < skills.len() {
        let path = seq![sheet, skills[i].save_key@];
        let edit = Edit::Put(crate::patch::skill_fields(skills[i]));
        lemma_edit_wf(v, path, 0, edit);
        lemma_skills_wf(edit_at(v, path, 0, edit), sheet, skills, i + 1);
    }
}

/// The equipment holds each slot once.
pub(crate) proof fn lemma_equipment_wf(items: Seq<crate::models::InventoryItemDisplay>, n: int)
    requires
        0 <= n <= items.len(),
    ensures
        members_wf(crate::patch::equipment(items, n)),
    decreases n,
{
    if n > 0 {
        lemma_equipment_wf(items, n - 1);
        if crate::patch::worn(items[n - 1]) {
            lemma_put_member_wf(
                crate::patch::equipment(items, n - 1),
                items[n - 1].equip_slot@,
                JsonModel::Text(items[n - 1].name@),
            );
        }
    }
}

/// The doors hold each door once.
pub(crate) proof fn lemma_doors_wf(doors: Seq<(String, bool)>, n: int)
    requires
        0 <= n <= doors.len(),
    ensures
        members_wf(crate::patch::door_members(doors, n)),
    decreases n,
{
    if n > 0 {
        lemma_doors_wf(doors, n - 1);
        lemma_put_member_wf(
            crate::patch::door_members(doors, n - 1),
            doors[n - 1].0@,
            JsonModel::Bool(doors[n - 1].1),
        );
    }
}

/// The records of the cabinet's list hold each key once.
pub(crate) proof fn lemma_list_records_wf(thoughts: Seq<ThoughtDisplay>, n: int)
    requires
        0 <= n <= thoughts.len(),
    ensures
        items_wf(crate::patch::list_records(thoughts, n)),
    decreases n,
{
    if n > 0 {
        lemma_list_records_wf(thoughts, n - 1);
        reveal_strlit("name");
        reveal_strlit("isFresh");
        reveal_strlit("state");
        reveal_strlit("timeLeft");
        let record = crate::patch::list_record(thoughts[n - 1]);
        let ms = record->Object_0;
        assert(ms[0].0.len() == 4 && ms[1].0.len() == 7 && ms[2].0.len() == 5 && ms[3].0.len()
            == 8);
        assert(crate::value::keys_unique(ms));
        assert(ms[0].1.wf() && ms[1].1.wf() && ms[2].1.wf() && ms[3].1.wf());
        assert(members_wf(ms));
        assert(record.wf());
    }
}

/// The slots of the cabinet hold each key once.
pub(crate) proof fn lemma_slots_wf(thoughts: Seq<ThoughtDisplay>, n: int)
    requires
        0 <= n <= thoughts.len(),
    ensures
        items_wf(filled_slots(thoughts, n)),
        crate::patch::empty_slot().wf(),
    decreases n,
{
    reveal_strlit("Item1");
    reveal_strlit("Item2");
    let empty = crate::patch::empty_slot()->Object_0;
    assert(empty[0].0[4] != empty[1].0[4]);
    assert(crate::value::keys_unique(empty));
    assert(empty[0].1.wf() && empty[1].1.wf());
    assert(members_wf(empty));
    assert(crate::patch::empty_slot().wf());
    if n > 0 {
        lemma_slots_wf(thoughts, n - 1);
        let slot = crate::patch::filled_slot(thoughts[n - 1].name@);
        let ms = slot->Object_0;
        assert(ms[0].0[4] != ms[1].0[4]);
        assert(crate::value::keys_unique(ms));
        assert(ms[0].1.wf() && ms[1].1.wf());
        assert(members_wf(ms));
        assert(slot.wf());
    }
}

/// The merge keeps the tree of the first payload one in which no object holds
/// a key twice.
pub proof fn lemma_first_keeps_wf(first: JsonModel, st: SaveUpdatePayload)
    requires
        first.wf(),
    ensures
        crate::patch::patched_first(first, st).wf(),
{
    let none = Seq::<Seq<char>>::empty();
    let e_area = Edit::Put(seq![("areaId"@, JsonModel::Text(st.area_id@))]);
    lemma_edit_wf(first, none, 0, e_area);
    lemma_edit_wf(
        edit_at(first, none, 0, e_area),
        seq!["partyState"@],
        0,
        Edit::Put(crate::patch::party_fields(st.party_state)),
    );
}

/// Writing the player, the clock and the character sheet keeps the tree one in
/// which no object holds a key twice.
pub(crate) proof fn lemma_character_keeps_wf(second: JsonModel, st: SaveUpdatePayload)
    requires
        second.wf(),
    ensures
        patched_character(second, st).wf(),
{
    let top = Seq::<Seq<char>>::empty();
    let pc = spelling(second, top, "playerCharacter"@, "PlayerCharacter"@);
    let e1 = Edit::Put(crate::patch::player_fields(second, pc, st));
    let r1 = edit_at(second, seq![pc], 0, e1);
    lemma_edit_wf(second, seq![pc], 0, e1);
    let e2 = Edit::Put(
        seq![
            ("ENDURANCE"@, crate::json::int_number(st.health)),
            ("VOLITION"@, crate::json::int_number(st.morale)),
        ],
    );
    let r2 = edit_at(r1, seq![pc, "healingPools"@], 0, e2);
    lemma_edit_wf(r1, seq![pc, "healingPools"@], 0, e2);
    let clock = spelling(r2, top, "sunshineClockTimeHolder"@, "SunshineClockTimeHolder"@);
    let e3 = Edit::Put(
        seq![
            ("dayCounter"@, crate::json::int_number(st.day)),
            ("realDayCounter"@, crate::json::int_number(st.day)),
            (
                "dayMinutes"@,
                crate::json::int_number(crate::patch::day_minutes(st.hours, st.minutes)),
            ),
        ],
    );
    let r3 = edit_at(r2, seq![clock, "time"@], 0, e3);
    lemma_edit_wf(r2, seq![clock, "time"@], 0, e3);
    let sheet = spelling(r3, top, "characterSheet"@, "CharacterSheet"@);
    let r4 = with_abilities(r3, sheet, st.abilities@, 0);
    lemma_abilities_wf(r3, sheet, st.abilities@, 0);
    let r5 = with_skills(r4, sheet, st.skills@, 0);
    lemma_skills_wf(r4, sheet, st.skills@, 0);
    let e6 = Edit::Put(crate::patch::sheet_fields(st));
    assert(values_wf(crate::patch::sheet_fields(st))) by {
        let f = crate::patch::sheet_fields(st);
        assert forall|i: int| 0 <= i < f.len() implies (#[trigger] f[i]).1.wf() by {
            assert(f[i].1 is Array);
            assert(items_wf(f[i].1->Array_0));
        }
    }
    lemma_edit_wf(r5, seq![sheet], 0, e6);
}

/// Writing the cabinet of thoughts keeps the tree one in which no object holds
/// a key twice.
pub(crate) proof fn lemma_cabinet_keeps_wf(v: JsonModel, st: SaveUpdatePayload)
    requires
        v.wf(),
    ensures
        patched_cabinet(v, st).wf(),
{
    let thoughts = st.thoughts@;
    lemma_list_records_wf(thoughts, thoughts.len() as int);
    lemma_slots_wf(thoughts, thoughts.len() as int);
    let e7 = Edit::Put(
        seq![
            (
                "thoughtListState"@,
                JsonModel::Array(crate::patch::list_records(thoughts, thoughts.len() as int)),
            ),
        ],
    );
    let r7 = edit_at(v, seq!["thoughtCabinetState"@], 0, e7);
    lemma_edit_wf(v, seq!["thoughtCabinetState"@], 0, e7);
    let slots = cabinet_slots(thoughts);
    assert(items_wf(slots)) by {
        let filled = filled_slots(thoughts, thoughts.len() as int);
        assert forall|i: int| 0 <= i < slots.len() implies (#[trigger] slots[i]).wf() by {
            if i < filled.len() {
                assert(slots[i] == filled[i]);
            } else {
                assert(slots[i] == crate::patch::empty_slot());
            }
        }
    }
    let e8 = Edit::Put(seq![("slotStates"@, JsonModel::Array(slots))]);
    lemma_edit_wf(r7, seq!["thoughtCabinetState"@, "thoughtCabinetViewState"@], 0, e8);
}

/// Writing the game mode, the flags, the weather, the inventory, the doors and
/// the visited places keeps the tree one in which no object holds a key twice.
pub(crate) proof fn lemma_world_keeps_wf(v: JsonModel, st: SaveUpdatePayload)
    requires
        v.wf(),
    ensures
        patched_world(v, st).wf(),
{
    lemma_equipment_wf(st.owned_items@, st.owned_items@.len() as int);
    lemma_doors_wf(st.door_states@, st.door_states@.len() as int);
    let e9 = Edit::Put(seq![("gameMode"@, JsonModel::Text(st.game_mode@))]);
    let r9 = edit_at(v, seq!["gameModeState"@], 0, e9);
    lemma_edit_wf(v, seq!["gameModeState"@], 0, e9);
    let e10 = Edit::Put(crate::patch::hud_fields(st.hud_state));
    let r10 = edit_at(r9, seq!["hudState"@], 0, e10);
    lemma_edit_wf(r9, seq!["hudState"@], 0, e10);
    let e11 = Edit::Put(seq![("weatherPreset"@, crate::json::int_number(st.weather_preset))]);
    let r11 = edit_at(r10, seq!["weatherState"@], 0, e11);
    lemma_edit_wf(r10, seq!["weatherState"@], 0, e11);
    let e12 = Edit::Put(
        seq![
            ("bullets"@, crate::json::int_number(st.bullets)),
            (
                "equipment"@,
                JsonModel::Object(
                    crate::patch::equipment(st.owned_items@, st.owned_items@.len() as int),
                ),
            ),
        ],
    );
    let p12 = seq!["inventoryState"@, "inventoryViewState"@];
    let r12 = edit_at(r11, p12, 0, e12);
    lemma_edit_wf(r11, p12, 0, e12);
    let e13 = Edit::Put(
        seq![
            (
                "DoorStates"@,
                JsonModel::Object(
                    crate::patch::door_members(st.door_states@, st.door_states@.len() as int),
                ),
            ),
        ],
    );
    let r13 = edit_at(r12, seq!["variousItemsHolder"@], 0, e13);
    lemma_edit_wf(r12, seq!["variousItemsHolder"@], 0, e13);
    let e14 = Edit::Put(crate::patch::location_fields(st.location_flags));
    lemma_edit_wf(r13, seq!["aquiredJournalTasks"@], 0, e14);
}

/// Taking the checks out keeps the tree one in which no object holds a key
/// twice.
pub(crate) proof fn lemma_checks_keep_wf(v: JsonModel, st: SaveUpdatePayload)
    requires
        v.wf(),
    ensures
        patched_checks(v, st).wf(),
{
    let e15 = Edit::Drop(crate::json::keys_view(st.reset_check_keys@));
    let p15 = seq!["failedWhiteChecksHolder"@, "WhiteCheckCache"@];
    let r15 = edit_at(v, p15, 0, e15);
    lemma_edit_wf(v, p15, 0, e15);
    let e16 = Edit::Drop(crate::json::keys_view(st.reset_seen_check_keys@));
    lemma_edit_wf(r15, seq!["failedWhiteChecksHolder"@, "SeenWhiteCheckCache"@], 0, e16);
}

/// The merge keeps the tree of the second payload one in which no object holds
/// a key twice.
pub proof fn lemma_second_keeps_wf(second: JsonModel, st: SaveUpdatePayload)
    requires
        second.wf(),
    ensures
        patched_second(second, st).wf(),
{
    let a = patched_character(second, st);
    let b = patched_cabinet(a, st);
    let c = patched_world(b, st);
    lemma_character_keeps_wf(second, st);
    lemma_cabinet_keeps_wf(a, st);
    lemma_world_keeps_wf(b, st);
    lemma_checks_keep_wf(c, st);
}

} // verus!
