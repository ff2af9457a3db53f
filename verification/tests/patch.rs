use disco_save::json::{drop_at, json_float, json_int, path1, path2, probe, put_at, JsonNumber, JsonValue};
use disco_save::models::{
    AbilityDisplay, InventoryItemDisplay, SkillDisplay, ThoughtDisplay,
};
use disco_save::patch::{
    apply_first_edits, apply_second_edits, cabinet_slot_states, classify_state, names_in_list,
    state_name, thought_state, SaveUpdatePayload, ThoughtKind, ThoughtList,
};

fn obj(members: Vec<(&str, JsonValue)>) -> JsonValue {
    JsonValue::Object(members.into_iter().map(|(k, v)| (k.to_string(), v)).collect())
}

fn text(s: &str) -> JsonValue {
    JsonValue::String(s.to_string())
}

fn whole(v: i64) -> JsonValue {
    json_int(v)
}

fn get<'a>(v: &'a JsonValue, key: &str) -> Option<&'a JsonValue> {
    match v {
        JsonValue::Object(ms) => ms.iter().find(|m| m.0 == key).map(|m| &m.1),
        _ => None,
    }
}

fn at<'a>(v: &'a JsonValue, path: &[&str]) -> &'a JsonValue {
    let mut cur = v;
    for key in path {
        cur = get(cur, key).unwrap_or_else(|| panic!("no member {}", key));
    }
    cur
}

fn keys(v: &JsonValue) -> Vec<String> {
    match v {
        JsonValue::Object(ms) => ms.iter().map(|m| m.0.clone()).collect(),
        _ => Vec::new(),
    }
}

fn thought(name: &str, state: &str) -> ThoughtDisplay {
    ThoughtDisplay {
        name: name.to_string(),
        state: state.to_string(),
        time_left: 1.5f64.to_bits(),
        ..Default::default()
    }
}

fn item(name: &str, owned: bool, equipped: bool, slot: &str) -> InventoryItemDisplay {
    InventoryItemDisplay {
        name: name.to_string(),
        is_owned: owned,
        is_equipped: equipped,
        equip_slot: slot.to_string(),
        ..Default::default()
    }
}

fn second_tree() -> JsonValue {
    obj(vec![
        ("unknownTop", obj(vec![("deep", JsonValue::Array(vec![whole(1), JsonValue::Null]))])),
        (
            "playerCharacter",
            obj(vec![
                ("Money", whole(500)),
                ("XpAmount", whole(10)),
                ("level", whole(2)),
                ("StockValue", whole(77)),
                ("healingPools", obj(vec![("ENDURANCE", whole(1)), ("other", text("keep"))])),
            ]),
        ),
        (
            "sunshineClockTimeHolder",
            obj(vec![("time", obj(vec![("dayCounter", whole(1)), ("seconds", whole(59))]))]),
        ),
        (
            "characterSheet",
            obj(vec![
                ("intellect", obj(vec![("value", whole(1)), ("maximumValue", whole(6)), ("extra", text("x"))])),
                ("logic", obj(vec![("value", whole(1))])),
                ("notAnObject", whole(3)),
                ("gainedThoughts", JsonValue::Array(vec![text("old")])),
            ]),
        ),
        (
            "thoughtCabinetState",
            obj(vec![
                ("thoughtCabinetViewState", obj(vec![("selectedProjectName", text("p"))])),
            ]),
        ),
        ("gameModeState", obj(vec![("gameMode", text("NORMAL")), ("wasSwitched", JsonValue::Bool(true))])),
        ("hudState", obj(vec![])),
        ("weatherState", obj(vec![("weatherPreset", whole(1))])),
        (
            "inventoryState",
            obj(vec![("inventoryViewState", obj(vec![("keys", JsonValue::Array(vec![]))]))]),
        ),
        ("variousItemsHolder", obj(vec![("BuildNumber", text("b1"))])),
        ("aquiredJournalTasks", obj(vec![("LastDoneTask", text("t"))])),
        (
            "failedWhiteChecksHolder",
            obj(vec![
                ("WhiteCheckCache", obj(vec![("a", whole(1)), ("b", whole(2)), ("c", whole(3))])),
                ("SeenWhiteCheckCache", obj(vec![("s", whole(1)), ("t", whole(2))])),
            ]),
        ),
    ])
}

fn payload() -> SaveUpdatePayload {
    SaveUpdatePayload {
        xp_amount: 90,
        level: 5,
        skill_points: 3,
        money: 700,
        health: 4,
        morale: 6,
        day: 3,
        hours: 13,
        minutes: 37,
        abilities: vec![AbilityDisplay {
            save_key: "intellect".to_string(),
            value: 8,
            maximum_value: 6,
            is_signature: true,
            ..Default::default()
        }],
        skills: vec![
            SkillDisplay {
                save_key: "logic".to_string(),
                value: 2,
                maximum_value: 9,
                rank_value: 1,
                has_advancement: true,
                ..Default::default()
            },
            SkillDisplay { save_key: "missing".to_string(), ..Default::default() },
            SkillDisplay { save_key: "notAnObject".to_string(), value: 1, ..Default::default() },
        ],
        owned_items: vec![
            item("jacket", true, true, "body"),
            item("pen", true, false, ""),
            item("ghost", false, true, "hand"),
            item("tie", true, true, "neck"),
            item("loose", true, true, ""),
            item("coat", true, true, "body"),
        ],
        bullets: 2,
        thoughts: vec![
            thought("hobocop", "Internalized"),
            thought("jamais_vu", "Gained"),
            thought("wompty", "Processing"),
            thought("volumetric", "NotAcquired"),
            thought("rigor", "Forgotten"),
            thought("odd", "SomethingElse"),
        ],
        area_id: "whirling".to_string(),
        game_mode: "HARDCORE".to_string(),
        weather_preset: 4,
        reset_check_keys: vec!["b".to_string(), "zz".to_string()],
        reset_seen_check_keys: vec!["s".to_string(), "t".to_string()],
        door_states: vec![("door1".to_string(), true), ("door2".to_string(), false), ("door1".to_string(), false)],
        ..Default::default()
    }
}

#[test]
fn money_edit_is_written_under_the_spelling_that_is_there() {
    let mut tree = second_tree();
    assert_eq!(at(&tree, &["playerCharacter", "Money"]), &whole(500));
    apply_second_edits(&mut tree, &payload());
    let pc = at(&tree, &["playerCharacter"]);
    assert_eq!(get(pc, "Money"), Some(&whole(700)));
    assert_eq!(get(pc, "money"), None);
    assert_eq!(get(pc, "XpAmount"), Some(&whole(90)));
    assert_eq!(get(pc, "level"), Some(&whole(5)));
    assert_eq!(get(pc, "Level"), None);
    assert_eq!(get(pc, "skillPoints"), Some(&whole(3)));
    assert_eq!(get(pc, "StockValue"), Some(&whole(77)));
    assert_eq!(
        keys(pc),
        vec!["Money", "XpAmount", "level", "StockValue", "healingPools", "skillPoints"]
    );
    assert_eq!(at(&tree, &["playerCharacter", "healingPools", "ENDURANCE"]), &whole(4));
    assert_eq!(at(&tree, &["playerCharacter", "healingPools", "VOLITION"]), &whole(6));
    assert_eq!(at(&tree, &["playerCharacter", "healingPools", "other"]), &text("keep"));
}

#[test]
fn capitalised_holder_is_used_where_the_other_is_missing() {
    let mut tree = obj(vec![
        ("PlayerCharacter", obj(vec![("money", whole(1))])),
        ("CharacterSheet", obj(vec![])),
        ("SunshineClockTimeHolder", obj(vec![("time", obj(vec![]))])),
    ]);
    apply_second_edits(&mut tree, &payload());
    assert_eq!(at(&tree, &["PlayerCharacter", "money"]), &whole(700));
    assert_eq!(at(&tree, &["PlayerCharacter", "xpAmount"]), &whole(90));
    assert_eq!(at(&tree, &["SunshineClockTimeHolder", "time", "dayMinutes"]), &whole(817));
    assert_eq!(
        at(&tree, &["CharacterSheet", "fixedThoughts"]),
        &JsonValue::Array(vec![text("hobocop")])
    );
    assert_eq!(keys(&tree), vec!["PlayerCharacter", "CharacterSheet", "SunshineClockTimeHolder"]);
}

#[test]
fn members_that_the_editor_does_not_show_stay() {
    let before = second_tree();
    let mut tree = second_tree();
    apply_second_edits(&mut tree, &payload());
    assert_eq!(keys(&tree), keys(&before));
    assert_eq!(at(&tree, &["unknownTop"]), at(&before, &["unknownTop"]));
    assert_eq!(at(&tree, &["sunshineClockTimeHolder", "time", "seconds"]), &whole(59));
    assert_eq!(at(&tree, &["characterSheet", "intellect", "extra"]), &text("x"));
    assert_eq!(at(&tree, &["characterSheet", "notAnObject"]), &whole(3));
    assert_eq!(at(&tree, &["gameModeState", "wasSwitched"]), &JsonValue::Bool(true));
    assert_eq!(at(&tree, &["variousItemsHolder", "BuildNumber"]), &text("b1"));
    assert_eq!(at(&tree, &["aquiredJournalTasks", "LastDoneTask"]), &text("t"));
    assert_eq!(
        at(&tree, &["thoughtCabinetState", "thoughtCabinetViewState", "selectedProjectName"]),
        &text("p")
    );
    assert_eq!(at(&tree, &["inventoryState", "inventoryViewState", "keys"]), &JsonValue::Array(vec![]));
}

#[test]
fn tree_that_is_no_object_stays_as_it_is() {
    let mut tree = JsonValue::Null;
    apply_second_edits(&mut tree, &payload());
    assert_eq!(tree, JsonValue::Null);
    let mut first = JsonValue::Array(vec![whole(1)]);
    apply_first_edits(&mut first, &payload());
    assert_eq!(first, JsonValue::Array(vec![whole(1)]));
}

#[test]
fn clock_and_sheet_entries_are_written() {
    let mut tree = second_tree();
    apply_second_edits(&mut tree, &payload());
    let time = at(&tree, &["sunshineClockTimeHolder", "time"]);
    assert_eq!(get(time, "dayCounter"), Some(&whole(3)));
    assert_eq!(get(time, "realDayCounter"), Some(&whole(3)));
    assert_eq!(get(time, "dayMinutes"), Some(&whole(13 * 60 + 37)));
    let intellect = at(&tree, &["characterSheet", "intellect"]);
    assert_eq!(get(intellect, "value"), Some(&whole(8)));
    assert_eq!(get(intellect, "maximumValue"), Some(&whole(8)));
    assert_eq!(get(intellect, "isSignature"), Some(&JsonValue::Bool(true)));
    let logic = at(&tree, &["characterSheet", "logic"]);
    assert_eq!(get(logic, "value"), Some(&whole(2)));
    assert_eq!(get(logic, "maximumValue"), Some(&whole(9)));
    assert_eq!(get(logic, "rankValue"), Some(&whole(1)));
    assert_eq!(get(logic, "hasAdvancement"), Some(&JsonValue::Bool(true)));
    assert_eq!(get(logic, "isSignature"), Some(&JsonValue::Bool(false)));
    assert_eq!(get(at(&tree, &["characterSheet"]), "missing"), None);
}

#[test]
fn thought_lists_follow_the_states() {
    let mut tree = second_tree();
    apply_second_edits(&mut tree, &payload());
    let sheet = at(&tree, &["characterSheet"]);
    let names = |xs: &[&str]| JsonValue::Array(xs.iter().map(|x| text(x)).collect());
    assert_eq!(get(sheet, "gainedThoughts"), Some(&names(&["hobocop", "jamais_vu", "wompty", "rigor"])));
    assert_eq!(get(sheet, "cookingThoughts"), Some(&names(&["wompty"])));
    assert_eq!(get(sheet, "fixedThoughts"), Some(&names(&["hobocop"])));
    assert_eq!(get(sheet, "forgottenThoughts"), Some(&names(&["rigor"])));
    assert_eq!(get(sheet, "gainedItems"), Some(&names(&["jacket", "pen", "tie", "loose", "coat"])));
    assert_eq!(get(sheet, "equippedItems"), Some(&names(&["jacket", "ghost", "tie", "loose", "coat"])));
}

#[test]
fn internalized_thought_fills_one_of_twelve_slots() {
    let mut st = payload();
    st.thoughts = vec![thought("hobocop", "Gained")];
    let mut tree = second_tree();
    apply_second_edits(&mut tree, &st);
    let empty = obj(vec![("Item1", text("EMPTY")), ("Item2", text(""))]);
    match at(&tree, &["thoughtCabinetState", "thoughtCabinetViewState", "slotStates"]) {
        JsonValue::Array(slots) => {
            assert_eq!(slots.len(), 12);
            assert!(slots.iter().all(|s| s == &empty));
        }
        other => panic!("no array: {:?}", other),
    }
    assert_eq!(at(&tree, &["characterSheet", "fixedThoughts"]), &JsonValue::Array(vec![]));

    st.thoughts = vec![thought("hobocop", "Internalized")];
    apply_second_edits(&mut tree, &st);
    assert_eq!(at(&tree, &["characterSheet", "gainedThoughts"]), &JsonValue::Array(vec![text("hobocop")]));
    assert_eq!(at(&tree, &["characterSheet", "fixedThoughts"]), &JsonValue::Array(vec![text("hobocop")]));
    match at(&tree, &["thoughtCabinetState", "thoughtCabinetViewState", "slotStates"]) {
        JsonValue::Array(slots) => {
            assert_eq!(slots.len(), 12);
            assert_eq!(slots[0], obj(vec![("Item1", text("FILLED")), ("Item2", text("hobocop"))]));
            assert_eq!(slots.iter().filter(|s| *s != &empty).count(), 1);
        }
        other => panic!("no array: {:?}", other),
    }
    let sheet = at(&tree, &["characterSheet"]);
    let list = |key: &str| match get(sheet, key) {
        Some(JsonValue::Array(xs)) => xs
            .iter()
            .map(|x| match x {
                JsonValue::String(s) => s.clone(),
                _ => String::new(),
            })
            .collect::<Vec<String>>(),
        _ => Vec::new(),
    };
    let state = thought_state(
        "hobocop",
        &list("gainedThoughts"),
        &list("cookingThoughts"),
        &list("fixedThoughts"),
        &list("forgottenThoughts"),
    );
    assert_eq!(state, ThoughtKind::Internalized);
    assert_eq!(state_name(state), "Internalized");
}

#[test]
fn cabinet_list_holds_every_acquired_thought() {
    let mut tree = second_tree();
    apply_second_edits(&mut tree, &payload());
    let record = |name: &str, token: &str| {
        obj(vec![
            ("name", text(name)),
            ("isFresh", JsonValue::Bool(false)),
            ("state", text(token)),
            ("timeLeft", JsonValue::Number(JsonNumber::Float(1.5f64.to_bits()))),
        ])
    };
    assert_eq!(
        at(&tree, &["thoughtCabinetState", "thoughtListState"]),
        &JsonValue::Array(vec![
            record("hobocop", "FIXED"),
            record("jamais_vu", "GAINED"),
            record("wompty", "COOKING"),
            record("rigor", "FORGOTTEN"),
            record("odd", "GAINED"),
        ])
    );
    match at(&tree, &["thoughtCabinetState", "thoughtCabinetViewState", "slotStates"]) {
        JsonValue::Array(slots) => {
            assert_eq!(slots.len(), 12);
            assert_eq!(slots[0], obj(vec![("Item1", text("FILLED")), ("Item2", text("hobocop"))]));
            assert_eq!(slots[1], obj(vec![("Item1", text("FILLED")), ("Item2", text("wompty"))]));
            assert_eq!(slots[2], obj(vec![("Item1", text("EMPTY")), ("Item2", text(""))]));
        }
        other => panic!("no array: {:?}", other),
    }
}

#[test]
fn more_than_twelve_filled_slots_are_all_kept() {
    let thoughts: Vec<ThoughtDisplay> =
        (0..14).map(|i| thought(&format!("t{}", i), "Processing")).collect();
    assert_eq!(cabinet_slot_states(&thoughts).len(), 14);
    assert_eq!(cabinet_slot_states(&Vec::new()).len(), 12);
}

#[test]
fn time_that_is_not_finite_is_written_as_null() {
    assert_eq!(json_float(f64::INFINITY.to_bits()), JsonValue::Null);
    assert_eq!(json_float(f64::NAN.to_bits()), JsonValue::Null);
    assert_eq!(json_float(f64::NEG_INFINITY.to_bits()), JsonValue::Null);
    assert_eq!(
        json_float(f64::MAX.to_bits()),
        JsonValue::Number(JsonNumber::Float(f64::MAX.to_bits()))
    );
    assert_eq!(json_float(0), JsonValue::Number(JsonNumber::Float(0)));
}

#[test]
fn integers_take_the_sign_of_their_kind() {
    assert_eq!(json_int(5), JsonValue::Number(JsonNumber::PosInt(5)));
    assert_eq!(json_int(0), JsonValue::Number(JsonNumber::PosInt(0)));
    assert_eq!(json_int(-5), JsonValue::Number(JsonNumber::NegInt(-5)));
}

#[test]
fn equipment_holds_owned_and_equipped_items_with_a_slot() {
    let mut tree = second_tree();
    apply_second_edits(&mut tree, &payload());
    let view = at(&tree, &["inventoryState", "inventoryViewState"]);
    assert_eq!(get(view, "bullets"), Some(&whole(2)));
    assert_eq!(
        get(view, "equipment"),
        Some(&obj(vec![("body", text("coat")), ("neck", text("tie"))]))
    );
}

#[test]
fn doors_flags_mode_and_weather_are_written() {
    let mut tree = second_tree();
    let mut st = payload();
    st.hud_state.portrait_shaved = true;
    st.location_flags.was_church_visited = true;
    apply_second_edits(&mut tree, &st);
    assert_eq!(
        at(&tree, &["variousItemsHolder", "DoorStates"]),
        &obj(vec![("door1", JsonValue::Bool(false)), ("door2", JsonValue::Bool(false))])
    );
    assert_eq!(at(&tree, &["gameModeState", "gameMode"]), &text("HARDCORE"));
    assert_eq!(at(&tree, &["weatherState", "weatherPreset"]), &whole(4));
    assert_eq!(at(&tree, &["hudState", "tequilaPortraitShaved"]), &JsonValue::Bool(true));
    assert_eq!(at(&tree, &["hudState", "tequilaPortraitObscured"]), &JsonValue::Bool(false));
    assert_eq!(keys(at(&tree, &["hudState"])).len(), 12);
    assert_eq!(at(&tree, &["aquiredJournalTasks", "wasChurchVisited"]), &JsonValue::Bool(true));
    assert_eq!(
        at(&tree, &["aquiredJournalTasks", "wasQuicktravelFishingVillageDiscovered"]),
        &JsonValue::Bool(false)
    );
}

#[test]
fn reset_checks_are_taken_out() {
    let mut tree = second_tree();
    apply_second_edits(&mut tree, &payload());
    assert_eq!(
        at(&tree, &["failedWhiteChecksHolder", "WhiteCheckCache"]),
        &obj(vec![("a", whole(1)), ("c", whole(3))])
    );
    assert_eq!(at(&tree, &["failedWhiteChecksHolder", "SeenWhiteCheckCache"]), &obj(vec![]));
}

#[test]
fn first_payload_takes_the_area_and_the_party() {
    let mut tree = obj(vec![
        ("fowUnrevealersStatusCache", obj(vec![("k", text("v"))])),
        ("partyState", obj(vec![("isKimInParty", JsonValue::Bool(false)), ("custom", whole(9))])),
    ]);
    let mut st = payload();
    st.party_state.is_kim_in_party = true;
    st.party_state.sleep_location = -3;
    apply_first_edits(&mut tree, &st);
    assert_eq!(keys(&tree), vec!["fowUnrevealersStatusCache", "partyState", "areaId"]);
    assert_eq!(at(&tree, &["areaId"]), &text("whirling"));
    assert_eq!(at(&tree, &["fowUnrevealersStatusCache", "k"]), &text("v"));
    let party = at(&tree, &["partyState"]);
    assert_eq!(get(party, "isKimInParty"), Some(&JsonValue::Bool(true)));
    assert_eq!(get(party, "custom"), Some(&whole(9)));
    assert_eq!(get(party, "sleepLocation"), Some(&whole(-3)));
    assert_eq!(get(party, "timeSinceKimWentSleepingInHisRoom"), Some(&whole(0)));
    assert_eq!(keys(party).len(), 17);
}

#[test]
fn first_payload_without_a_party_gets_none() {
    let mut tree = obj(vec![("areaId", text("old"))]);
    apply_first_edits(&mut tree, &payload());
    assert_eq!(tree, obj(vec![("areaId", text("whirling"))]));
}

#[test]
fn edits_by_path_reach_only_objects() {
    let mut tree = obj(vec![("a", obj(vec![("b", whole(1))])), ("c", whole(2))]);
    put_at(&mut tree, &path2("a", "b"), vec![("x".to_string(), whole(1))]);
    put_at(&mut tree, &path1("c"), vec![("x".to_string(), whole(1))]);
    put_at(&mut tree, &path1("missing"), vec![("x".to_string(), whole(1))]);
    assert_eq!(tree, obj(vec![("a", obj(vec![("b", whole(1))])), ("c", whole(2))]));
    put_at(&mut tree, &path1("a"), vec![("b".to_string(), whole(5)), ("n".to_string(), whole(6))]);
    assert_eq!(tree, obj(vec![("a", obj(vec![("b", whole(5)), ("n", whole(6))])), ("c", whole(2))]));
    drop_at(&mut tree, &path1("a"), &vec!["b".to_string()]);
    assert_eq!(tree, obj(vec![("a", obj(vec![("n", whole(6))])), ("c", whole(2))]));
    assert!(probe(&tree, &path1("a"), "n"));
    assert!(!probe(&tree, &path1("a"), "b"));
    assert!(!probe(&tree, &path1("c"), "n"));
}

#[test]
fn states_of_thoughts_are_told_by_name() {
    assert_eq!(classify_state("Gained"), ThoughtKind::Gained);
    assert_eq!(classify_state("gained"), ThoughtKind::Other);
    assert_eq!(classify_state("NotAcquired"), ThoughtKind::NotAcquired);
    let thoughts = vec![thought("a", "Forgotten"), thought("b", "NotAcquired")];
    assert_eq!(names_in_list(&thoughts, ThoughtList::Gained), vec!["a"]);
    assert_eq!(names_in_list(&thoughts, ThoughtList::Forgotten), vec!["a"]);
    assert_eq!(names_in_list(&thoughts, ThoughtList::Fixed), Vec::<String>::new());
    let none: Vec<String> = Vec::new();
    assert_eq!(thought_state("x", &none, &none, &none, &none), ThoughtKind::NotAcquired);
    assert_eq!(
        thought_state("x", &vec!["x".to_string()], &vec!["x".to_string()], &none, &none),
        ThoughtKind::Processing
    );
}

#[test]
fn day_minutes_wrap_around() {
    let mut st = payload();
    st.hours = i64::MAX;
    st.minutes = 1;
    let mut tree = obj(vec![("sunshineClockTimeHolder", obj(vec![("time", obj(vec![]))]))]);
    apply_second_edits(&mut tree, &st);
    assert_eq!(
        at(&tree, &["sunshineClockTimeHolder", "time", "dayMinutes"]),
        &whole(i64::MAX.wrapping_mul(60).wrapping_add(1))
    );
}
