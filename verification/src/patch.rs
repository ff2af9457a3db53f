//! The merge of the editor's fields into the structural trees of the two JSON
//! payloads. Only the members that the editor shows are written; every other
//! member of the trees stays as it was read.

use vstd::prelude::*;
use crate::json::{
    array_view, drop_at, edit_at, float_node, has_member, int_number, json_float, json_int,
    json_text, json_texts, keys_view, member, object_insert, object_view, path0, path1, path2,
    probe, put_at, texts_node, Edit, JsonModel, JsonValue, Members,
};
use crate::models::{
    AbilityDisplay, HudStateDisplay, InventoryItemDisplay, LocationFlags, PartyState,
    ReputationDisplay, SkillDisplay, ThoughtDisplay,
};
use crate::text::{copy_text, same_text};
use crate::value::put;

verus! {

/// What the editor sends when the player saves.
#[derive(Debug, Clone, PartialEq, Default)]
pub struct SaveUpdatePayload {
    pub folder_path: String,
    pub base_name: String,
    pub xp_amount: i64,
    pub level: i64,
    pub skill_points: i64,
    pub money: i64,
    pub health: i64,
    pub morale: i64,
    pub day: i64,
    pub hours: i64,
    pub minutes: i64,
    pub abilities: Vec<AbilityDisplay>,
    pub skills: Vec<SkillDisplay>,
    pub owned_items: Vec<InventoryItemDisplay>,
    pub bullets: i64,
    pub thoughts: Vec<ThoughtDisplay>,
    pub area_id: String,
    pub party_state: PartyState,
    pub hud_state: HudStateDisplay,
    pub game_mode: String,
    pub location_flags: LocationFlags,
    pub weather_preset: i64,
    pub reputation: ReputationDisplay,
    pub lua_edits: Vec<(String, String)>,
    pub reset_check_keys: Vec<String>,
    pub reset_seen_check_keys: Vec<String>,
    pub door_states: Vec<(String, bool)>,
    pub area_states: Vec<(String, i64)>,
    pub shown_orbs: Vec<(String, i64)>,
}

/// The number of slots of the thought cabinet.
pub const CABINET_SLOTS: usize = 12;

/// The state of a thought.
#[derive(Clone, Copy, Debug, PartialEq, Eq, Structural)]
pub enum ThoughtKind {
    NotAcquired,
    Gained,
    Processing,
    Internalized,
    Forgotten,
    /// A state under a name that the editor does not know.
    Other,
}

/// One of the four lists of thought names that a save holds.
#[derive(Clone, Copy, Debug, PartialEq, Eq, Structural)]
pub enum ThoughtList {
    Gained,
    Cooking,
    Fixed,
    Forgotten,
}

/// The state that a name stands for.
pub open spec fn thought_kind(state: Seq<char>) -> ThoughtKind {
    if state == "NotAcquired"@ {
        ThoughtKind::NotAcquired
    } else if state == "Gained"@ {
        ThoughtKind::Gained
    } else if state == "Processing"@ {
        ThoughtKind::Processing
    } else if state == "Internalized"@ {
        ThoughtKind::Internalized
    } else if state == "Forgotten"@ {
        ThoughtKind::Forgotten
    } else {
        ThoughtKind::Other
    }
}

/// Whether a thought in this state stands in the list: every acquired thought
/// in the gained ones, and a thought that is processed, internalized or
/// forgotten in the list of its state as well.
pub open spec fn listed(kind: ThoughtKind, list: ThoughtList) -> bool {
    match list {
        ThoughtList::Gained => kind == ThoughtKind::Gained || kind == ThoughtKind::Processing
            || kind == ThoughtKind::Internalized || kind == ThoughtKind::Forgotten,
        ThoughtList::Cooking => kind == ThoughtKind::Processing,
        ThoughtList::Fixed => kind == ThoughtKind::Internalized,
        ThoughtList::Forgotten => kind == ThoughtKind::Forgotten,
    }
}

/// Whether a thought in this state fills a slot of the cabinet.
pub open spec fn fills_slot(kind: ThoughtKind) -> bool {
    kind == ThoughtKind::Internalized || kind == ThoughtKind::Processing
}

/// The word of the game for a state.
pub open spec fn state_token(kind: ThoughtKind) -> Seq<char> {
    match kind {
        ThoughtKind::Internalized => "FIXED"@,
        ThoughtKind::Processing => "COOKING"@,
        ThoughtKind::Forgotten => "FORGOTTEN"@,
        _ => "GAINED"@,
    }
}

/// The names of those of the first `n` thoughts that stand in the list.
pub open spec fn thought_names(thoughts: Seq<ThoughtDisplay>, n: int, list: ThoughtList) -> Seq<
    Seq<char>,
>
    decreases n,
{
    if n <= 0 || n > thoughts.len() {
        Seq::empty()
    } else if listed(thought_kind(thoughts[n - 1].state@), list) {
        thought_names(thoughts, n - 1, list).push(thoughts[n - 1].name@)
    } else {
        thought_names(thoughts, n - 1, list)
    }
}

/// The record of the cabinet's list for one thought.
pub open spec fn list_record(t: ThoughtDisplay) -> JsonModel {
    JsonModel::Object(
        seq![
            ("name"@, JsonModel::Text(t.name@)),
            ("isFresh"@, JsonModel::Bool(false)),
            ("state"@, JsonModel::Text(state_token(thought_kind(t.state@)))),
            ("timeLeft"@, float_node(t.time_left)),
        ],
    )
}

/// The records of the cabinet's list for the first `n` thoughts: one for each
/// that was acquired.
pub open spec fn list_records(thoughts: Seq<ThoughtDisplay>, n: int) -> Seq<JsonModel>
    decreases n,
{
    if n <= 0 || n > thoughts.len() {
        Seq::empty()
    } else if thought_kind(thoughts[n - 1].state@) != ThoughtKind::NotAcquired {
        list_records(thoughts, n - 1).push(list_record(thoughts[n - 1]))
    } else {
        list_records(thoughts, n - 1)
    }
}

/// A slot of the cabinet that the thought `name` fills.
pub open spec fn filled_slot(name: Seq<char>) -> JsonModel {
    JsonModel::Object(
        seq![("Item1"@, JsonModel::Text("FILLED"@)), ("Item2"@, JsonModel::Text(name))],
    )
}

/// A slot of the cabinet that no thought fills.
pub open spec fn empty_slot() -> JsonModel {
    JsonModel::Object(
        seq![("Item1"@, JsonModel::Text("EMPTY"@)), ("Item2"@, JsonModel::Text(Seq::empty()))],
    )
}

/// The slots that the first `n` thoughts fill.
pub open spec fn filled_slots(thoughts: Seq<ThoughtDisplay>, n: int) -> Seq<JsonModel>
    decreases n,
{
    if n <= 0 || n > thoughts.len() {
        Seq::empty()
    } else if fills_slot(thought_kind(thoughts[n - 1].state@)) {
        filled_slots(thoughts, n - 1).push(filled_slot(thoughts[n - 1].name@))
    } else {
        filled_slots(thoughts, n - 1)
    }
}

/// The slots, with empty ones after them up to the number of slots of the
/// cabinet.
pub open spec fn padded_slots(slots: Seq<JsonModel>) -> Seq<JsonModel> {
    if slots.len() >= CABINET_SLOTS {
        slots
    } else {
        slots + Seq::new((CABINET_SLOTS - slots.len()) as nat, |i: int| empty_slot())
    }
}

/// The slots of the cabinet for the thoughts.
pub open spec fn cabinet_slots(thoughts: Seq<ThoughtDisplay>) -> Seq<JsonModel> {
    padded_slots(filled_slots(thoughts, thoughts.len() as int))
}

/// The names of those of the first `n` items that are owned, or of those that
/// are equipped.
pub open spec fn item_names(items: Seq<InventoryItemDisplay>, n: int, equipped: bool) -> Seq<
    Seq<char>,
>
    decreases n,
{
    if n <= 0 || n > items.len() {
        Seq::empty()
    } else if (if equipped {
        items[n - 1].is_equipped
    } else {
        items[n - 1].is_owned
    }) {
        item_names(items, n - 1, equipped).push(items[n - 1].name@)
    } else {
        item_names(items, n - 1, equipped)
    }
}

/// Whether an item is worn: owned, equipped, and with the name of a slot.
pub open spec fn worn(item: InventoryItemDisplay) -> bool {
    item.is_owned && item.is_equipped && item.equip_slot@.len() > 0
}

/// The equipment of the first `n` items: from the slot to the name of the item
/// that is worn in it, the later item where two are worn in one slot.
pub open spec fn equipment(items: Seq<InventoryItemDisplay>, n: int) -> Members
    decreases n,
{
    if n <= 0 || n > items.len() {
        Seq::empty()
    } else if worn(items[n - 1]) {
        put(
            equipment(items, n - 1),
            items[n - 1].equip_slot@,
            JsonModel::Text(items[n - 1].name@),
        )
    } else {
        equipment(items, n - 1)
    }
}

/// The first `n` doors as members: from the door to whether it is open.
pub open spec fn door_members(doors: Seq<(String, bool)>, n: int) -> Members
    decreases n,
{
    if n <= 0 || n > doors.len() {
        Seq::empty()
    } else {
        put(door_members(doors, n - 1), doors[n - 1].0@, JsonModel::Bool(doors[n - 1].1))
    }
}

/// The greater of two integers.
pub open spec fn greater(a: i64, b: i64) -> i64 {
    if a >= b {
        a
    } else {
        b
    }
}

/// The minutes of the day at `hours` and `minutes`, in 64-bit arithmetic that
/// wraps around.
pub open spec fn day_minutes(hours: i64, minutes: i64) -> i64 {
    hours.wrapping_mul(60).wrapping_add(minutes)
}

/// The members written for the party.
pub open spec fn party_fields(p: PartyState) -> Members {
    seq![
        ("isKimInParty"@, JsonModel::Bool(p.is_kim_in_party)),
        ("isKimLeftOutside"@, JsonModel::Bool(p.is_kim_left_outside)),
        ("isKimAbandoned"@, JsonModel::Bool(p.is_kim_abandoned)),
        ("isKimAwayUpToMorning"@, JsonModel::Bool(p.is_kim_away_up_to_morning)),
        ("isKimSleepingInHisRoom"@, JsonModel::Bool(p.is_kim_sleeping_in_his_room)),
        ("isKimSayingGoodMorning"@, JsonModel::Bool(p.is_kim_saying_good_morning)),
        ("isCunoInParty"@, JsonModel::Bool(p.is_cuno_in_party)),
        ("isCunoLeftOutside"@, JsonModel::Bool(p.is_cuno_left_outside)),
        ("isCunoAbandoned"@, JsonModel::Bool(p.is_cuno_abandoned)),
        ("hasHangover"@, JsonModel::Bool(p.has_hangover)),
        ("sleepLocation"@, int_number(p.sleep_location)),
        ("waitLocation"@, int_number(p.wait_location)),
        ("cunoWaitLocation"@, int_number(p.cuno_wait_location)),
        ("timeSinceKimWentSleepingInHisRoom"@, int_number(p.time_since_kim_went_sleeping)),
        ("kimLastArrivalLocation"@, int_number(p.kim_last_arrival_location)),
        ("cunoLastArrivalLocation"@, int_number(p.cuno_last_arrival_location)),
    ]
}

/// The members written for the portrait and the notifications.
pub open spec fn hud_fields(h: HudStateDisplay) -> Members {
    seq![
        ("tequilaPortraitObscured"@, JsonModel::Bool(h.portrait_obscured)),
        ("tequilaPortraitShaved"@, JsonModel::Bool(h.portrait_shaved)),
        ("tequilaPortraitExpressionStopped"@, JsonModel::Bool(h.portrait_expression_stopped)),
        ("tequilaPortraitFascist"@, JsonModel::Bool(h.portrait_fascist)),
        ("charsheetNotification"@, JsonModel::Bool(h.charsheet_notification)),
        ("inventoryNotification"@, JsonModel::Bool(h.inventory_notification)),
        ("journalNotification"@, JsonModel::Bool(h.journal_notification)),
        ("thcNotification"@, JsonModel::Bool(h.thc_notification)),
        ("invClothesNotification"@, JsonModel::Bool(h.inv_clothes_notification)),
        ("invPawnablesNotification"@, JsonModel::Bool(h.inv_pawnables_notification)),
        ("invReadingNotification"@, JsonModel::Bool(h.inv_reading_notification)),
        ("invToolsNotification"@, JsonModel::Bool(h.inv_tools_notification)),
    ]
}

/// The members written for the visited places.
pub open spec fn location_fields(f: LocationFlags) -> Members {
    seq![
        ("wasChurchVisited"@, JsonModel::Bool(f.was_church_visited)),
        ("wasFishingVillageVisited"@, JsonModel::Bool(f.was_fishing_village_visited)),
        ("wasQuicktravelChurchDiscovered"@, JsonModel::Bool(f.was_quicktravel_church_discovered)),
        (
            "wasQuicktravelFishingVillageDiscovered"@,
            JsonModel::Bool(f.was_quicktravel_fishing_village_discovered),
        ),
    ]
}

/// The members written for an ability: the maximum is raised to the value
/// where it is below it.
pub open spec fn ability_fields(a: AbilityDisplay) -> Members {
    seq![
        ("value"@, int_number(a.value)),
        ("maximumValue"@, int_number(greater(a.maximum_value, a.value))),
        ("isSignature"@, JsonModel::Bool(a.is_signature)),
    ]
}

/// The members written for a skill: the maximum is raised to the value where
/// it is below it.
pub open spec fn skill_fields(s: SkillDisplay) -> Members {
    seq![
        ("value"@, int_number(s.value)),
        ("maximumValue"@, int_number(greater(s.maximum_value, s.value))),
        ("rankValue"@, int_number(s.rank_value)),
        ("hasAdvancement"@, JsonModel::Bool(s.has_advancement)),
        ("isSignature"@, JsonModel::Bool(s.is_signature)),
    ]
}

/// The key that is there: `first` where the object at `path` holds it, else
/// `second`.
pub open spec fn spelling(
    v: JsonModel,
    path: Seq<Seq<char>>,
    first: Seq<char>,
    second: Seq<char>,
) -> Seq<char> {
    if has_member(v, path, 0, first) {
        first
    } else {
        second
    }
}

/// The tree of the first payload after the merge: the area at the root, and
/// the party's members in the party state where the root holds one.
pub open spec fn patched_first(raw: JsonModel, st: SaveUpdatePayload) -> JsonModel {
    let a = edit_at(
        raw,
        Seq::empty(),
        0,
        Edit::Put(seq![("areaId"@, JsonModel::Text(st.area_id@))]),
    );
    edit_at(a, seq!["partyState"@], 0, Edit::Put(party_fields(st.party_state)))
}

/// The tree with the members of each ability from index `i` on written into
/// the object under the ability's key in the character sheet.
pub open spec fn with_abilities(
    v: JsonModel,
    sheet: Seq<char>,
    abilities: Seq<AbilityDisplay>,
    i: int,
) -> JsonModel
    decreases abilities.len() - i,
{
    if 0 <= i < abilities.len() {
        with_abilities(
            edit_at(
                v,
                seq![sheet, abilities[i].save_key@],
                0,
                Edit::Put(ability_fields(abilities[i])),
            ),
            sheet,
            abilities,
            i + 1,
        )
    } else {
        v
    }
}

/// The tree with the members of each skill from index `i` on written into the
/// object under the skill's key in the character sheet.
pub open spec fn with_skills(
    v: JsonModel,
    sheet: Seq<char>,
    skills: Seq<SkillDisplay>,
    i: int,
) -> JsonModel
    decreases skills.len() - i,
{
    if 0 <= i < skills.len() {
        with_skills(
            edit_at(v, seq![sheet, skills[i].save_key@], 0, Edit::Put(skill_fields(skills[i]))),
            sheet,
            skills,
            i + 1,
        )
    } else {
        v
    }
}

/// The members written for the player character, under the spellings that the
/// object has already: the capitalised one where it is there, else the other.
pub open spec fn player_fields(v: JsonModel, pc: Seq<char>, st: SaveUpdatePayload) -> Members {
    seq![
        (spelling(v, seq![pc], "XpAmount"@, "xpAmount"@), int_number(st.xp_amount)),
        (spelling(v, seq![pc], "Level"@, "level"@), int_number(st.level)),
        (spelling(v, seq![pc], "SkillPoints"@, "skillPoints"@), int_number(st.skill_points)),
        (spelling(v, seq![pc], "Money"@, "money"@), int_number(st.money)),
    ]
}

/// The members written into the character sheet itself: the names of the items
/// and the four lists of thoughts.
pub open spec fn sheet_fields(st: SaveUpdatePayload) -> Members {
    let items = st.owned_items@;
    let thoughts = st.thoughts@;
    let n = thoughts.len() as int;
    seq![
        ("gainedItems"@, texts_node(item_names(items, items.len() as int, false))),
        ("equippedItems"@, texts_node(item_names(items, items.len() as int, true))),
        ("gainedThoughts"@, texts_node(thought_names(thoughts, n, ThoughtList::Gained))),
        ("cookingThoughts"@, texts_node(thought_names(thoughts, n, ThoughtList::Cooking))),
        ("fixedThoughts"@, texts_node(thought_names(thoughts, n, ThoughtList::Fixed))),
        ("forgottenThoughts"@, texts_node(thought_names(thoughts, n, ThoughtList::Forgotten))),
    ]
}

/// The tree of the second payload after the player, the clock and the
/// character sheet were written.
pub open spec fn patched_character(raw: JsonModel, st: SaveUpdatePayload) -> JsonModel {
    let top = Seq::<Seq<char>>::empty();
    let pc = spelling(raw, top, "playerCharacter"@, "PlayerCharacter"@);
    let r1 = edit_at(raw, seq![pc], 0, Edit::Put(player_fields(raw, pc, st)));
    let r2 = edit_at(
        r1,
        seq![pc, "healingPools"@],
        0,
        Edit::Put(
            seq![("ENDURANCE"@, int_number(st.health)), ("VOLITION"@, int_number(st.morale))],
        ),
    );
    let clock = spelling(r2, top, "sunshineClockTimeHolder"@, "SunshineClockTimeHolder"@);
    let r3 = edit_at(
        r2,
        seq![clock, "time"@],
        0,
        Edit::Put(
            seq![
                ("dayCounter"@, int_number(st.day)),
                ("realDayCounter"@, int_number(st.day)),
                ("dayMinutes"@, int_number(day_minutes(st.hours, st.minutes))),
            ],
        ),
    );
    let sheet = spelling(r3, top, "characterSheet"@, "CharacterSheet"@);
    let r4 = with_abilities(r3, sheet, st.abilities@, 0);
    let r5 = with_skills(r4, sheet, st.skills@, 0);
    edit_at(r5, seq![sheet], 0, Edit::Put(sheet_fields(st)))
}

/// The tree after the cabinet of thoughts was written: the list of the acquired
/// thoughts, and the slots.
pub open spec fn patched_cabinet(v: JsonModel, st: SaveUpdatePayload) -> JsonModel {
    let thoughts = st.thoughts@;
    let r7 = edit_at(
        v,
        seq!["thoughtCabinetState"@],
        0,
        Edit::Put(
            seq![
                (
                    "thoughtListState"@,
                    JsonModel::Array(list_records(thoughts, thoughts.len() as int)),
                ),
            ],
        ),
    );
    edit_at(
        r7,
        seq!["thoughtCabinetState"@, "thoughtCabinetViewState"@],
        0,
        Edit::Put(seq![("slotStates"@, JsonModel::Array(cabinet_slots(thoughts)))]),
    )
}

/// The tree after the game mode, the flags of the display, the weather, the
/// inventory, the doors and the visited places were written.
pub open spec fn patched_world(v: JsonModel, st: SaveUpdatePayload) -> JsonModel {
    let r9 = edit_at(
        v,
        seq!["gameModeState"@],
        0,
        Edit::Put(seq![("gameMode"@, JsonModel::Text(st.game_mode@))]),
    );
    let r10 = edit_at(r9, seq!["hudState"@], 0, Edit::Put(hud_fields(st.hud_state)));
    let r11 = edit_at(
        r10,
        seq!["weatherState"@],
        0,
        Edit::Put(seq![("weatherPreset"@, int_number(st.weather_preset))]),
    );
    let r12 = edit_at(
        r11,
        seq!["inventoryState"@, "inventoryViewState"@],
        0,
        Edit::Put(
            seq![
                ("bullets"@, int_number(st.bullets)),
                (
                    "equipment"@,
                    JsonModel::Object(equipment(st.owned_items@, st.owned_items@.len() as int)),
                ),
            ],
        ),
    );
    let r13 = edit_at(
        r12,
        seq!["variousItemsHolder"@],
        0,
        Edit::Put(
            seq![
                (
                    "DoorStates"@,
                    JsonModel::Object(door_members(st.door_states@, st.door_states@.len() as int)),
                ),
            ],
        ),
    );
    edit_at(r13, seq!["aquiredJournalTasks"@], 0, Edit::Put(location_fields(st.location_flags)))
}

/// The tree after the checks that were reset were taken out of the two caches
/// that the second payload holds under `failedWhiteChecksHolder`: the cache of
/// the failed checks and the cache of the seen ones. The members are deleted,
/// not overwritten. The same keys are deleted from the two tables of the
/// database by `edits::reset_checks`.
pub open spec fn patched_checks(v: JsonModel, st: SaveUpdatePayload) -> JsonModel {
    let r15 = edit_at(
        v,
        seq!["failedWhiteChecksHolder"@, "WhiteCheckCache"@],
        0,
        Edit::Drop(keys_view(st.reset_check_keys@)),
    );
    edit_at(
        r15,
        seq!["failedWhiteChecksHolder"@, "SeenWhiteCheckCache"@],
        0,
        Edit::Drop(keys_view(st.reset_seen_check_keys@)),
    )
}

/// The tree of the second payload after the merge.
pub open spec fn patched_second(raw: JsonModel, st: SaveUpdatePayload) -> JsonModel {
    patched_checks(patched_world(patched_cabinet(patched_character(raw, st), st), st), st)
}

/// The state that the name `state` stands for.
pub fn classify_state(state: &str) -> (r: ThoughtKind)
    ensures
        r == thought_kind(state@),
{
    if same_text(state, "NotAcquired") {
        ThoughtKind::NotAcquired
    } else if same_text(state, "Gained") {
        ThoughtKind::Gained
    } else if same_text(state, "Processing") {
        ThoughtKind::Processing
    } else if same_text(state, "Internalized") {
        ThoughtKind::Internalized
    } else if same_text(state, "Forgotten") {
        ThoughtKind::Forgotten
    } else {
        ThoughtKind::Other
    }
}

/// Whether a thought in this state stands in the list.
pub fn in_list(kind: ThoughtKind, list: ThoughtList) -> (r: bool)
    ensures
        r == listed(kind, list),
{
    match list {
        ThoughtList::Gained => kind == ThoughtKind::Gained || kind == ThoughtKind::Processing
            || kind == ThoughtKind::Internalized || kind == ThoughtKind::Forgotten,
        ThoughtList::Cooking => kind == ThoughtKind::Processing,
        ThoughtList::Fixed => kind == ThoughtKind::Internalized,
        ThoughtList::Forgotten => kind == ThoughtKind::Forgotten,
    }
}

/// The word of the game for a state.
pub fn token_of(kind: ThoughtKind) -> (r: &'static str)
    ensures
        r@ == state_token(kind),
{
    match kind {
        ThoughtKind::Internalized => "FIXED",
        ThoughtKind::Processing => "COOKING",
        ThoughtKind::Forgotten => "FORGOTTEN",
        _ => "GAINED",
    }
}

/// The names of the thoughts that stand in the list, in the order of the
/// thoughts.
pub fn names_in_list(thoughts: &Vec<ThoughtDisplay>, list: ThoughtList) -> (r: Vec<String>)
    ensures
        keys_view(r@) == thought_names(thoughts@, thoughts@.len() as int, list),
{
    let mut out: Vec<String> = Vec::new();
    let mut i: usize = 0;
    assert(keys_view(out@) =~= thought_names(thoughts@, 0, list));
    while i < thoughts.len()
        invariant
            i <= thoughts.len(),
            keys_view(out@) == thought_names(thoughts@, i as int, list),
        decreases thoughts.len() - i,
    {
        let t = &thoughts[i];
        if in_list(classify_state(t.state.as_str()), list) {
            out.push(copy_text(t.name.as_str()));
            assert(keys_view(out@) =~= thought_names(thoughts@, i + 1, list));
        }
        i += 1;
    }
    out
}

/// The names of the items that are owned, or of those that are equipped, in
/// the order of the items.
pub fn names_of_items(items: &Vec<InventoryItemDisplay>, equipped: bool) -> (r: Vec<String>)
    ensures
        keys_view(r@) == item_names(items@, items@.len() as int, equipped),
{
    let mut out: Vec<String> = Vec::new();
    let mut i: usize = 0;
    assert(keys_view(out@) =~= item_names(items@, 0, equipped));
    while i < items.len()
        invariant
            i <= items.len(),
            keys_view(out@) == item_names(items@, i as int, equipped),
        decreases items.len() - i,
    {
        let item = &items[i];
        let chosen = if equipped {
            item.is_equipped
        } else {
            item.is_owned
        };
        if chosen {
            out.push(copy_text(item.name.as_str()));
            assert(keys_view(out@) =~= item_names(items@, i + 1, equipped));
        }
        i += 1;
    }
    out
}

/// The records of the cabinet's list: one for each thought that was acquired.
pub fn cabinet_list(thoughts: &Vec<ThoughtDisplay>) -> (r: Vec<JsonValue>)
    ensures
        array_view(r@) == list_records(thoughts@, thoughts@.len() as int),
{
    let mut out: Vec<JsonValue> = Vec::new();
    let mut i: usize = 0;
    assert(array_view(out@) =~= list_records(thoughts@, 0));
    while i < thoughts.len()
        invariant
            i <= thoughts.len(),
            array_view(out@) == list_records(thoughts@, i as int),
        decreases thoughts.len() - i,
    {
        let t = &thoughts[i];
        let kind = classify_state(t.state.as_str());
        if kind != ThoughtKind::NotAcquired {
            let mut record: Vec<(String, JsonValue)> = Vec::new();
            record.push(member("name", json_text(t.name.as_str())));
            record.push(member("isFresh", JsonValue::Bool(false)));
            record.push(member("state", json_text(token_of(kind))));
            record.push(member("timeLeft", json_float(t.time_left)));
            let node = JsonValue::Object(record);
            assert(node@ == list_record(thoughts@[i as int])) by {
                assert(object_view(record@) =~= list_record(thoughts@[i as int])->Object_0);
            }
            out.push(node);
            assert(array_view(out@) =~= list_records(thoughts@, i + 1));
        }
        i += 1;
    }
    out
}

/// The slots of the cabinet: one for each thought that is internalized or
/// processed, then empty ones up to the number of slots.
pub fn cabinet_slot_states(thoughts: &Vec<ThoughtDisplay>) -> (r: Vec<JsonValue>)
    ensures
        array_view(r@) == cabinet_slots(thoughts@),
{
    let mut out: Vec<JsonValue> = Vec::new();
    let mut i: usize = 0;
    assert(array_view(out@) =~= filled_slots(thoughts@, 0));
    while i < thoughts.len()
        invariant
            i <= thoughts.len(),
            array_view(out@) == filled_slots(thoughts@, i as int),
        decreases thoughts.len() - i,
    {
        let t = &thoughts[i];
        let kind = classify_state(t.state.as_str());
        if kind == ThoughtKind::Internalized || kind == ThoughtKind::Processing {
            let mut slot: Vec<(String, JsonValue)> = Vec::new();
            slot.push(member("Item1", json_text("FILLED")));
            slot.push(member("Item2", json_text(t.name.as_str())));
            let node = JsonValue::Object(slot);
            assert(node@ == filled_slot(thoughts@[i as int].name@)) by {
                assert(object_view(slot@) =~= filled_slot(thoughts@[i as int].name@)->Object_0);
            }
            out.push(node);
            assert(array_view(out@) =~= filled_slots(thoughts@, i + 1));
        }
        i += 1;
    }
    let ghost filled = array_view(out@);
    while out.len() < CABINET_SLOTS
        invariant
            filled.len() <= out.len(),
            filled.len() < CABINET_SLOTS ==> out.len() <= CABINET_SLOTS,
            filled.len() >= CABINET_SLOTS ==> out.len() == filled.len(),
            array_view(out@) == filled + Seq::new(
                (out.len() - filled.len()) as nat,
                |i: int| empty_slot(),
            ),
        decreases CABINET_SLOTS - out.len(),
    {
        let mut slot: Vec<(String, JsonValue)> = Vec::new();
        slot.push(member("Item1", json_text("EMPTY")));
        slot.push(member("Item2", json_text("")));
        let node = JsonValue::Object(slot);
        assert(node@ == empty_slot()) by {
            reveal_strlit("");
            assert(""@ =~= Seq::<char>::empty());
            assert(object_view(slot@) =~= empty_slot()->Object_0);
        }
        let ghost before = array_view(out@);
        out.push(node);
        assert(array_view(out@) =~= before.push(empty_slot()));
        assert(array_view(out@) =~= filled + Seq::new(
            (out.len() - filled.len()) as nat,
            |i: int| empty_slot(),
        ));
    }
    assert(array_view(out@) =~= padded_slots(filled));
    out
}

/// The equipment: from each slot to the name of the item that is worn in it.
pub fn equipment_of(items: &Vec<InventoryItemDisplay>) -> (r: Vec<(String, JsonValue)>)
    ensures
        object_view(r@) == equipment(items@, items@.len() as int),
{
    let mut out: Vec<(String, JsonValue)> = Vec::new();
    let mut i: usize = 0;
    assert(object_view(out@) =~= equipment(items@, 0));
    while i < items.len()
        invariant
            i <= items.len(),
            object_view(out@) == equipment(items@, i as int),
        decreases items.len() - i,
    {
        let item = &items[i];
        if item.is_owned && item.is_equipped && !item.equip_slot.as_str().is_empty() {
            object_insert(
                &mut out,
                copy_text(item.equip_slot.as_str()),
                json_text(item.name.as_str()),
            );
        }
        i += 1;
    }
    out
}

/// The doors as members: from the door to whether it is open.
pub fn doors_of(doors: &Vec<(String, bool)>) -> (r: Vec<(String, JsonValue)>)
    ensures
        object_view(r@) == door_members(doors@, doors@.len() as int),
{
    let mut out: Vec<(String, JsonValue)> = Vec::new();
    let mut i: usize = 0;
    assert(object_view(out@) =~= door_members(doors@, 0));
    while i < doors.len()
        invariant
            i <= doors.len(),
            object_view(out@) == door_members(doors@, i as int),
        decreases doors.len() - i,
    {
        object_insert(&mut out, copy_text(doors[i].0.as_str()), JsonValue::Bool(doors[i].1));
        i += 1;
    }
    out
}

/// The greater of two integers.
pub fn greater_of(a: i64, b: i64) -> (r: i64)
    ensures
        r == greater(a, b),
{
    if a >= b {
        a
    } else {
        b
    }
}

/// The members written for the party.
pub fn party_members(p: &PartyState) -> (r: Vec<(String, JsonValue)>)
    ensures
        object_view(r@) == party_fields(*p),
{
    let mut f: Vec<(String, JsonValue)> = Vec::new();
    f.push(member("isKimInParty", JsonValue::Bool(p.is_kim_in_party)));
    f.push(member("isKimLeftOutside", JsonValue::Bool(p.is_kim_left_outside)));
    f.push(member("isKimAbandoned", JsonValue::Bool(p.is_kim_abandoned)));
    f.push(member("isKimAwayUpToMorning", JsonValue::Bool(p.is_kim_away_up_to_morning)));
    f.push(member("isKimSleepingInHisRoom", JsonValue::Bool(p.is_kim_sleeping_in_his_room)));
    f.push(member("isKimSayingGoodMorning", JsonValue::Bool(p.is_kim_saying_good_morning)));
    f.push(member("isCunoInParty", JsonValue::Bool(p.is_cuno_in_party)));
    f.push(member("isCunoLeftOutside", JsonValue::Bool(p.is_cuno_left_outside)));
    f.push(member("isCunoAbandoned", JsonValue::Bool(p.is_cuno_abandoned)));
    f.push(member("hasHangover", JsonValue::Bool(p.has_hangover)));
    f.push(member("sleepLocation", json_int(p.sleep_location)));
    f.push(member("waitLocation", json_int(p.wait_location)));
    f.push(member("cunoWaitLocation", json_int(p.cuno_wait_location)));
    f.push(member("timeSinceKimWentSleepingInHisRoom", json_int(p.time_since_kim_went_sleeping)));
    f.push(member("kimLastArrivalLocation", json_int(p.kim_last_arrival_location)));
    f.push(member("cunoLastArrivalLocation", json_int(p.cuno_last_arrival_location)));
    assert(object_view(f@) =~= party_fields(*p));
    f
}

/// The members written for the portrait and the notifications.
pub fn hud_members(h: &HudStateDisplay) -> (r: Vec<(String, JsonValue)>)
    ensures
        object_view(r@) == hud_fields(*h),
{
    let mut f: Vec<(String, JsonValue)> = Vec::new();
    f.push(member("tequilaPortraitObscured", JsonValue::Bool(h.portrait_obscured)));
    f.push(member("tequilaPortraitShaved", JsonValue::Bool(h.portrait_shaved)));
    f.push(
        member("tequilaPortraitExpressionStopped", JsonValue::Bool(h.portrait_expression_stopped)),
    );
    f.push(member("tequilaPortraitFascist", JsonValue::Bool(h.portrait_fascist)));
    f.push(member("charsheetNotification", JsonValue::Bool(h.charsheet_notification)));
    f.push(member("inventoryNotification", JsonValue::Bool(h.inventory_notification)));
    f.push(member("journalNotification", JsonValue::Bool(h.journal_notification)));
    f.push(member("thcNotification", JsonValue::Bool(h.thc_notification)));
    f.push(member("invClothesNotification", JsonValue::Bool(h.inv_clothes_notification)));
    f.push(member("invPawnablesNotification", JsonValue::Bool(h.inv_pawnables_notification)));
    f.push(member("invReadingNotification", JsonValue::Bool(h.inv_reading_notification)));
    f.push(member("invToolsNotification", JsonValue::Bool(h.inv_tools_notification)));
    assert(object_view(f@) =~= hud_fields(*h));
    f
}

/// The members written for the visited places.
pub fn location_members(l: &LocationFlags) -> (r: Vec<(String, JsonValue)>)
    ensures
        object_view(r@) == location_fields(*l),
{
    let mut f: Vec<(String, JsonValue)> = Vec::new();
    f.push(member("wasChurchVisited", JsonValue::Bool(l.was_church_visited)));
    f.push(member("wasFishingVillageVisited", JsonValue::Bool(l.was_fishing_village_visited)));
    f.push(
        member(
            "wasQuicktravelChurchDiscovered",
            JsonValue::Bool(l.was_quicktravel_church_discovered),
        ),
    );
    f.push(
        member(
            "wasQuicktravelFishingVillageDiscovered",
            JsonValue::Bool(l.was_quicktravel_fishing_village_discovered),
        ),
    );
    assert(object_view(f@) =~= location_fields(*l));
    f
}

/// The members written for an ability.
pub fn ability_members(a: &AbilityDisplay) -> (r: Vec<(String, JsonValue)>)
    ensures
        object_view(r@) == ability_fields(*a),
{
    let mut f: Vec<(String, JsonValue)> = Vec::new();
    f.push(member("value", json_int(a.value)));
    f.push(member("maximumValue", json_int(greater_of(a.maximum_value, a.value))));
    f.push(member("isSignature", JsonValue::Bool(a.is_signature)));
    assert(object_view(f@) =~= ability_fields(*a));
    f
}

/// The members written for a skill.
pub fn skill_members(s: &SkillDisplay) -> (r: Vec<(String, JsonValue)>)
    ensures
        object_view(r@) == skill_fields(*s),
{
    let mut f: Vec<(String, JsonValue)> = Vec::new();
    f.push(member("value", json_int(s.value)));
    f.push(member("maximumValue", json_int(greater_of(s.maximum_value, s.value))));
    f.push(member("rankValue", json_int(s.rank_value)));
    f.push(member("hasAdvancement", JsonValue::Bool(s.has_advancement)));
    f.push(member("isSignature", JsonValue::Bool(s.is_signature)));
    assert(object_view(f@) =~= skill_fields(*s));
    f
}

/// The key that is there: `first` where the object at `path` holds it, else
/// `second`.
pub fn spelled<'a>(root: &JsonValue, path: &Vec<&str>, first: &'a str, second: &'a str) -> (r:
    &'a str)
    ensures
        r@ == spelling(root@, crate::json::path_view(path@), first@, second@),
{
    if probe(root, path, first) {
        first
    } else {
        second
    }
}

/// Writes the area and the party into the tree of the first payload. Every
/// other member of the tree stays as it was. Where no object held a key twice,
/// none does afterwards.
pub fn apply_first_edits(first_raw: &mut JsonValue, save_state: &SaveUpdatePayload)
    ensures
        final(first_raw)@ == patched_first(old(first_raw)@, *save_state),
        old(first_raw)@.wf() ==> final(first_raw)@.wf(),
{
    proof {
        if first_raw@.wf() {
            crate::patch_proofs::lemma_first_keeps_wf(first_raw@, *save_state);
        }
    }
    let mut area: Vec<(String, JsonValue)> = Vec::new();
    area.push(member("areaId", json_text(save_state.area_id.as_str())));
    assert(object_view(area@) =~= seq![("areaId"@, JsonModel::Text(save_state.area_id@))]);
    put_at(first_raw, &path0(), area);
    put_at(first_raw, &path1("partyState"), party_members(&save_state.party_state));
}

/// Writes the player, the clock and the character sheet into the tree of the
/// second payload.
pub fn apply_character_edits(second_raw: &mut JsonValue, save_state: &SaveUpdatePayload)
    ensures
        final(second_raw)@ == patched_character(old(second_raw)@, *save_state),
{
    let st = save_state;
    let top = path0();
    let pc = spelled(second_raw, &top, "playerCharacter", "PlayerCharacter");
    let pc_path = path1(pc);
    let mut player: Vec<(String, JsonValue)> = Vec::new();
    player.push(
        member(spelled(second_raw, &pc_path, "XpAmount", "xpAmount"), json_int(st.xp_amount)),
    );
    player.push(member(spelled(second_raw, &pc_path, "Level", "level"), json_int(st.level)));
    player.push(
        member(
            spelled(second_raw, &pc_path, "SkillPoints", "skillPoints"),
            json_int(st.skill_points),
        ),
    );
    player.push(member(spelled(second_raw, &pc_path, "Money", "money"), json_int(st.money)));
    assert(object_view(player@) =~= player_fields(old(second_raw)@, pc@, *st));
    put_at(second_raw, &pc_path, player);

    let mut pools: Vec<(String, JsonValue)> = Vec::new();
    pools.push(member("ENDURANCE", json_int(st.health)));
    pools.push(member("VOLITION", json_int(st.morale)));
    assert(object_view(pools@) =~= seq![
        ("ENDURANCE"@, int_number(st.health)),
        ("VOLITION"@, int_number(st.morale)),
    ]);
    put_at(second_raw, &path2(pc, "healingPools"), pools);

    let clock = spelled(second_raw, &top, "sunshineClockTimeHolder", "SunshineClockTimeHolder");
    let mut time: Vec<(String, JsonValue)> = Vec::new();
    time.push(member("dayCounter", json_int(st.day)));
    time.push(member("realDayCounter", json_int(st.day)));
    time.push(member("dayMinutes", json_int(st.hours.wrapping_mul(60).wrapping_add(st.minutes))));
    assert(object_view(time@) =~= seq![
        ("dayCounter"@, int_number(st.day)),
        ("realDayCounter"@, int_number(st.day)),
        ("dayMinutes"@, int_number(day_minutes(st.hours, st.minutes))),
    ]);
    put_at(second_raw, &path2(clock, "time"), time);

    let sheet = spelled(second_raw, &top, "characterSheet", "CharacterSheet");
    let ghost r3 = second_raw@;
    let mut i: usize = 0;
    while i < st.abilities.len()
        invariant
            i <= st.abilities.len(),
            with_abilities(r3, sheet@, st.abilities@, 0) == with_abilities(
                second_raw@,
                sheet@,
                st.abilities@,
                i as int,
            ),
        decreases st.abilities.len() - i,
    {
        let a = &st.abilities[i];
        put_at(second_raw, &path2(sheet, a.save_key.as_str()), ability_members(a));
        i += 1;
    }
    let ghost r4 = second_raw@;
    let mut j: usize = 0;
    while j < st.skills.len()
        invariant
            j <= st.skills.len(),
            with_skills(r4, sheet@, st.skills@, 0) == with_skills(
                second_raw@,
                sheet@,
                st.skills@,
                j as int,
            ),
        decreases st.skills.len() - j,
    {
        let s = &st.skills[j];
        put_at(second_raw, &path2(sheet, s.save_key.as_str()), skill_members(s));
        j += 1;
    }

    let mut lists: Vec<(String, JsonValue)> = Vec::new();
    lists.push(member("gainedItems", json_texts(&names_of_items(&st.owned_items, false))));
    lists.push(member("equippedItems", json_texts(&names_of_items(&st.owned_items, true))));
    lists.push(
        member("gainedThoughts", json_texts(&names_in_list(&st.thoughts, ThoughtList::Gained))),
    );
    lists.push(
        member("cookingThoughts", json_texts(&names_in_list(&st.thoughts, ThoughtList::Cooking))),
    );
    lists.push(
        member("fixedThoughts", json_texts(&names_in_list(&st.thoughts, ThoughtList::Fixed))),
    );
    lists.push(
        member(
            "forgottenThoughts",
            json_texts(&names_in_list(&st.thoughts, ThoughtList::Forgotten)),
        ),
    );
    assert(object_view(lists@) =~= sheet_fields(*st));
    put_at(second_raw, &path1(sheet), lists);
}

/// Writes the cabinet of thoughts into the tree of the second payload.
pub fn apply_cabinet_edits(second_raw: &mut JsonValue, save_state: &SaveUpdatePayload)
    ensures
        final(second_raw)@ == patched_cabinet(old(second_raw)@, *save_state),
{
    let st = save_state;
    let mut list: Vec<(String, JsonValue)> = Vec::new();
    list.push(member("thoughtListState", JsonValue::Array(cabinet_list(&st.thoughts))));
    assert(object_view(list@) =~= seq![
        (
            "thoughtListState"@,
            JsonModel::Array(list_records(st.thoughts@, st.thoughts@.len() as int)),
        ),
    ]);
    put_at(second_raw, &path1("thoughtCabinetState"), list);

    let mut slots: Vec<(String, JsonValue)> = Vec::new();
    slots.push(member("slotStates", JsonValue::Array(cabinet_slot_states(&st.thoughts))));
    assert(object_view(slots@) =~= seq![
        ("slotStates"@, JsonModel::Array(cabinet_slots(st.thoughts@))),
    ]);
    put_at(second_raw, &path2("thoughtCabinetState", "thoughtCabinetViewState"), slots);
}

/// Writes the game mode, the flags of the display, the weather, the inventory,
/// the doors and the visited places into the tree of the second payload.
pub fn apply_world_edits(second_raw: &mut JsonValue, save_state: &SaveUpdatePayload)
    ensures
        final(second_raw)@ == patched_world(old(second_raw)@, *save_state),
{
    let st = save_state;
    let mut mode: Vec<(String, JsonValue)> = Vec::new();
    mode.push(member("gameMode", json_text(st.game_mode.as_str())));
    assert(object_view(mode@) =~= seq![("gameMode"@, JsonModel::Text(st.game_mode@))]);
    put_at(second_raw, &path1("gameModeState"), mode);

    put_at(second_raw, &path1("hudState"), hud_members(&st.hud_state));

    let mut weather: Vec<(String, JsonValue)> = Vec::new();
    weather.push(member("weatherPreset", json_int(st.weather_preset)));
    assert(object_view(weather@) =~= seq![("weatherPreset"@, int_number(st.weather_preset))]);
    put_at(second_raw, &path1("weatherState"), weather);

    let mut inventory: Vec<(String, JsonValue)> = Vec::new();
    inventory.push(member("bullets", json_int(st.bullets)));
    inventory.push(member("equipment", JsonValue::Object(equipment_of(&st.owned_items))));
    assert(object_view(inventory@) =~= seq![
        ("bullets"@, int_number(st.bullets)),
        (
            "equipment"@,
            JsonModel::Object(equipment(st.owned_items@, st.owned_items@.len() as int)),
        ),
    ]);
    put_at(second_raw, &path2("inventoryState", "inventoryViewState"), inventory);

    let mut doors: Vec<(String, JsonValue)> = Vec::new();
    doors.push(member("DoorStates", JsonValue::Object(doors_of(&st.door_states))));
    assert(object_view(doors@) =~= seq![
        (
            "DoorStates"@,
            JsonModel::Object(door_members(st.door_states@, st.door_states@.len() as int)),
        ),
    ]);
    put_at(second_raw, &path1("variousItemsHolder"), doors);

    put_at(
        second_raw,
        &path1("aquiredJournalTasks"),
        location_members(&st.location_flags),
    );
}

/// Takes the checks that were reset out of the two caches of the second
/// payload's tree. The database forgets them by `edits::reset_checks`.
pub fn apply_check_resets(second_raw: &mut JsonValue, save_state: &SaveUpdatePayload)
    ensures
        final(second_raw)@ == patched_checks(old(second_raw)@, *save_state),
{
    drop_at(
        second_raw,
        &path2("failedWhiteChecksHolder", "WhiteCheckCache"),
        &save_state.reset_check_keys,
    );
    drop_at(
        second_raw,
        &path2("failedWhiteChecksHolder", "SeenWhiteCheckCache"),
        &save_state.reset_seen_check_keys,
    );
}

/// Writes the editor's fields into the tree of the second payload: the player,
/// the clock, the character sheet, the thought cabinet, the game mode, the
/// flags of the display, the weather, the inventory, the doors and the visited
/// places; and takes the checks that were reset out of the two caches. Every
/// member of the root keeps its key and its place, and every member under a
/// key under which nothing is written stays as it was. Where no object held a
/// key twice, none does afterwards.
pub fn apply_second_edits(second_raw: &mut JsonValue, save_state: &SaveUpdatePayload)
    ensures
        final(second_raw)@ == patched_second(old(second_raw)@, *save_state),
        old(second_raw)@.wf() ==> final(second_raw)@.wf(),
        crate::patch_proofs::same_but(
            old(second_raw)@,
            final(second_raw)@,
            crate::patch_proofs::holders(),
        ),
{
    proof {
        crate::patch_proofs::lemma_second_keeps_rest(second_raw@, *save_state);
        if second_raw@.wf() {
            crate::patch_proofs::lemma_second_keeps_wf(second_raw@, *save_state);
        }
    }
    apply_character_edits(second_raw, save_state);
    apply_cabinet_edits(second_raw, save_state);
    apply_world_edits(second_raw, save_state);
    apply_check_resets(second_raw, save_state);
}

/// The state that the four lists of a save give a thought: internalized where
/// it stands among the fixed ones, else processed where it stands among the
/// cooking ones, else forgotten, else gained, else not acquired.
pub open spec fn state_from_lists(
    name: Seq<char>,
    gained: Seq<Seq<char>>,
    cooking: Seq<Seq<char>>,
    fixed: Seq<Seq<char>>,
    forgotten: Seq<Seq<char>>,
) -> ThoughtKind {
    if fixed.contains(name) {
        ThoughtKind::Internalized
    } else if cooking.contains(name) {
        ThoughtKind::Processing
    } else if forgotten.contains(name) {
        ThoughtKind::Forgotten
    } else if gained.contains(name) {
        ThoughtKind::Gained
    } else {
        ThoughtKind::NotAcquired
    }
}

/// The state of the thought `name`, from the four lists of a save.
pub fn thought_state(
    name: &str,
    gained: &Vec<String>,
    cooking: &Vec<String>,
    fixed: &Vec<String>,
    forgotten: &Vec<String>,
) -> (r: ThoughtKind)
    ensures
        r == state_from_lists(
            name@,
            crate::models::texts_view(gained@),
            crate::models::texts_view(cooking@),
            crate::models::texts_view(fixed@),
            crate::models::texts_view(forgotten@),
        ),
{
    if crate::models::holds_text(fixed, name) {
        ThoughtKind::Internalized
    } else if crate::models::holds_text(cooking, name) {
        ThoughtKind::Processing
    } else if crate::models::holds_text(forgotten, name) {
        ThoughtKind::Forgotten
    } else if crate::models::holds_text(gained, name) {
        ThoughtKind::Gained
    } else {
        ThoughtKind::NotAcquired
    }
}

/// The name of a state as the editor shows it.
pub open spec fn state_text(kind: ThoughtKind) -> Seq<char> {
    match kind {
        ThoughtKind::NotAcquired => "NotAcquired"@,
        ThoughtKind::Gained => "Gained"@,
        ThoughtKind::Processing => "Processing"@,
        ThoughtKind::Internalized => "Internalized"@,
        ThoughtKind::Forgotten => "Forgotten"@,
        ThoughtKind::Other => "Other"@,
    }
}

/// The name of a state as the editor shows it.
pub fn state_name(kind: ThoughtKind) -> (r: &'static str)
    ensures
        r@ == state_text(kind),
{
    match kind {
        ThoughtKind::NotAcquired => "NotAcquired",
        ThoughtKind::Gained => "Gained",
        ThoughtKind::Processing => "Processing",
        ThoughtKind::Internalized => "Internalized",
        ThoughtKind::Forgotten => "Forgotten",
        ThoughtKind::Other => "Other",
    }
}

} // verus!
