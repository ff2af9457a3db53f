use std::io::{Cursor, Read, Write};

use disco_save::archive::{payload_name, rewrite_members, PayloadKind, Payloads};
use disco_save::codec::{parse_lua_data, serialize_lua_database};
use disco_save::edits::{apply_lua_edits, apply_reputation, reputation_of, LuaEdit};
use disco_save::json::{JsonNumber, JsonValue};
use disco_save::models::{ReputationDisplay, SkillKeyMap, ThoughtDisplay};
use disco_save::patch::{
    apply_first_edits, apply_second_edits, thought_state, SaveUpdatePayload, ThoughtKind,
};
use disco_save::path::flatten_lua;
use disco_save::sheet::{parse_character_sheet, read_integer};
use disco_save::states::{parse_states, serialize_states, StatesData};
use disco_save::value::LuaValue;
use serde_json::{Number, Value};

fn to_tree(v: &Value) -> JsonValue {
    match v {
        Value::Null => JsonValue::Null,
        Value::Bool(b) => JsonValue::Bool(*b),
        Value::Number(n) => JsonValue::Number(if let Some(u) = n.as_u64() {
            JsonNumber::PosInt(u)
        } else if let Some(i) = n.as_i64() {
            JsonNumber::NegInt(i)
        } else {
            JsonNumber::Float(n.as_f64().unwrap().to_bits())
        }),
        Value::String(s) => JsonValue::String(s.clone()),
        Value::Array(items) => JsonValue::Array(items.iter().map(to_tree).collect()),
        Value::Object(members) => {
            JsonValue::Object(members.iter().map(|(k, v)| (k.clone(), to_tree(v))).collect())
        }
    }
}

fn from_tree(v: &JsonValue) -> Value {
    match v {
        JsonValue::Null => Value::Null,
        JsonValue::Bool(b) => Value::Bool(*b),
        JsonValue::Number(JsonNumber::PosInt(u)) => Value::Number(Number::from(*u)),
        JsonValue::Number(JsonNumber::NegInt(i)) => Value::Number(Number::from(*i)),
        JsonValue::Number(JsonNumber::Float(bits)) => {
            Number::from_f64(f64::from_bits(*bits)).map(Value::Number).unwrap_or(Value::Null)
        }
        JsonValue::String(s) => Value::String(s.clone()),
        JsonValue::Array(items) => Value::Array(items.iter().map(from_tree).collect()),
        JsonValue::Object(members) => {
            let mut map = serde_json::Map::new();
            for (k, v) in members {
                map.insert(k.clone(), from_tree(v));
            }
            Value::Object(map)
        }
    }
}

fn load(text: &str) -> JsonValue {
    to_tree(&serde_json::from_str::<Value>(text).unwrap())
}

fn save(tree: &JsonValue) -> String {
    serde_json::to_string_pretty(&from_tree(tree)).unwrap()
}

const SECOND: &str = r#"{
  "playerCharacter": {
    "Money": 500,
    "XpAmount": 40,
    "Level": 3,
    "SkillPoints": 1,
    "somethingTheEditorDoesNotKnow": [1, 2.5, "x", null, {"deep": true}],
    "healingPools": { "ENDURANCE": 2, "VOLITION": 3 }
  },
  "characterSheet": {
    "gainedThoughts": ["hobocop"],
    "cookingThoughts": [],
    "fixedThoughts": [],
    "forgottenThoughts": []
  },
  "thoughtCabinetState": {
    "thoughtListState": [
      { "name": "hobocop", "isFresh": true, "state": "GAINED", "timeLeft": 120.5 }
    ],
    "thoughtCabinetViewState": {
      "slotStates": [],
      "selectedProjectName": "hobocop"
    }
  },
  "unknownSection": { "kept": 1e300, "negative": -7, "big": 18446744073709551615 }
}"#;

fn names_of(tree: &Value, path: &[&str]) -> Vec<String> {
    let mut cur = tree;
    for key in path {
        cur = &cur[*key];
    }
    cur.as_array()
        .unwrap()
        .iter()
        .map(|x| x.as_str().unwrap().to_string())
        .collect()
}

#[test]
fn money_edit_survives_save_and_reload() {
    let mut tree = load(SECOND);
    let before: Value = serde_json::from_str(SECOND).unwrap();
    let payload = SaveUpdatePayload {
        money: 700,
        xp_amount: 40,
        level: 3,
        skill_points: 1,
        health: 2,
        morale: 3,
        thoughts: vec![ThoughtDisplay {
            name: "hobocop".to_string(),
            state: "Gained".to_string(),
            time_left: 120.5f64.to_bits(),
            ..Default::default()
        }],
        ..Default::default()
    };
    apply_second_edits(&mut tree, &payload);
    let text = save(&tree);
    assert!(text.contains("\n  \"playerCharacter\": {\n"));
    let after: Value = serde_json::from_str(&text).unwrap();
    assert_eq!(before["playerCharacter"]["Money"], Value::from(500));
    assert_eq!(after["playerCharacter"]["Money"], Value::from(700));
    assert_eq!(after["playerCharacter"]["XpAmount"], before["playerCharacter"]["XpAmount"]);
    assert_eq!(
        after["playerCharacter"]["somethingTheEditorDoesNotKnow"],
        before["playerCharacter"]["somethingTheEditorDoesNotKnow"]
    );
    assert_eq!(after["unknownSection"], before["unknownSection"]);
    assert_eq!(
        after["thoughtCabinetState"]["thoughtCabinetViewState"]["selectedProjectName"],
        Value::from("hobocop")
    );
    assert_eq!(after, from_tree(&tree));
}

#[test]
fn tree_that_is_not_edited_prints_as_it_was_read() {
    let tree = load(SECOND);
    let again: Value = serde_json::from_str(&save(&tree)).unwrap();
    let before: Value = serde_json::from_str(SECOND).unwrap();
    assert_eq!(again, before);
}

#[test]
fn internalized_thought_survives_save_and_reload() {
    let mut tree = load(SECOND);
    let payload = SaveUpdatePayload {
        thoughts: vec![ThoughtDisplay {
            name: "hobocop".to_string(),
            state: "Internalized".to_string(),
            time_left: 0f64.to_bits(),
            ..Default::default()
        }],
        ..Default::default()
    };
    apply_second_edits(&mut tree, &payload);
    let after: Value = serde_json::from_str(&save(&tree)).unwrap();
    let gained = names_of(&after, &["characterSheet", "gainedThoughts"]);
    let cooking = names_of(&after, &["characterSheet", "cookingThoughts"]);
    let fixed = names_of(&after, &["characterSheet", "fixedThoughts"]);
    let forgotten = names_of(&after, &["characterSheet", "forgottenThoughts"]);
    assert_eq!(gained, vec!["hobocop"]);
    assert_eq!(fixed, vec!["hobocop"]);
    assert!(cooking.is_empty() && forgotten.is_empty());
    assert_eq!(
        thought_state("hobocop", &gained, &cooking, &fixed, &forgotten),
        ThoughtKind::Internalized
    );
    let slots = after["thoughtCabinetState"]["thoughtCabinetViewState"]["slotStates"]
        .as_array()
        .unwrap();
    assert_eq!(slots.len(), 12);
    let filled: Vec<&Value> = slots.iter().filter(|s| s["Item1"] == "FILLED").collect();
    assert_eq!(filled.len(), 1);
    assert_eq!(filled[0]["Item2"], Value::from("hobocop"));
    assert_eq!(slots.iter().filter(|s| s["Item1"] == "EMPTY" && s["Item2"] == "").count(), 11);
    let list = after["thoughtCabinetState"]["thoughtListState"].as_array().unwrap();
    assert_eq!(list.len(), 1);
    assert_eq!(list[0]["state"], Value::from("FIXED"));
    assert_eq!(list[0]["isFresh"], Value::from(false));
    assert_eq!(list[0]["timeLeft"], Value::from(0.0));
}

fn members_under<'a>(tree: &'a JsonValue, key: &str) -> &'a Vec<(String, JsonValue)> {
    match tree {
        JsonValue::Object(members) => match members.iter().find(|m| m.0 == key) {
            Some((_, JsonValue::Object(inner))) => inner,
            _ => panic!("no object under {}", key),
        },
        _ => panic!("no object"),
    }
}

#[test]
fn merged_tree_is_read_back_by_the_typed_readers() {
    let mut tree = load(SECOND);
    let payload = SaveUpdatePayload {
        money: 700,
        xp_amount: 55,
        level: 4,
        skill_points: 2,
        thoughts: vec![
            ThoughtDisplay {
                name: "hobocop".to_string(),
                state: "Internalized".to_string(),
                ..Default::default()
            },
            ThoughtDisplay {
                name: "jamais_vu".to_string(),
                state: "Forgotten".to_string(),
                ..Default::default()
            },
        ],
        ..Default::default()
    };
    apply_second_edits(&mut tree, &payload);
    let reloaded = load(&save(&tree));
    let player = members_under(&reloaded, "playerCharacter");
    assert_eq!(read_integer(player, "money", "Money"), Some(700));
    assert_eq!(read_integer(player, "level", "Level"), Some(4));
    assert_eq!(read_integer(player, "xp_amount", "XpAmount"), Some(55));
    assert_eq!(read_integer(player, "skill_points", "SkillPoints"), Some(2));
    assert!(player.iter().any(|m| m.0 == "somethingTheEditorDoesNotKnow"));
    let sheet_node = match &reloaded {
        JsonValue::Object(members) => &members.iter().find(|m| m.0 == "characterSheet").unwrap().1,
        _ => panic!("no object"),
    };
    let sheet = parse_character_sheet(sheet_node, &SkillKeyMap::default());
    assert_eq!(sheet.gained_thoughts, vec!["hobocop", "jamais_vu"]);
    assert_eq!(sheet.fixed_thoughts, vec!["hobocop"]);
    assert_eq!(sheet.forgotten_thoughts, vec!["jamais_vu"]);
    assert!(sheet.cooking_thoughts.is_empty());
}

#[test]
fn first_payload_survives_save_and_reload() {
    let text = r#"{"areaId":"old","partyState":{"isKimInParty":false,"waitLocation":4,"extra":"x"},"fowUnrevealersStatusCache":{"a":"b"}}"#;
    let mut tree = load(text);
    let mut payload = SaveUpdatePayload { area_id: "whirling".to_string(), ..Default::default() };
    payload.party_state.is_kim_in_party = true;
    payload.party_state.wait_location = 9;
    apply_first_edits(&mut tree, &payload);
    let after: Value = serde_json::from_str(&save(&tree)).unwrap();
    assert_eq!(after["areaId"], Value::from("whirling"));
    assert_eq!(after["partyState"]["isKimInParty"], Value::from(true));
    assert_eq!(after["partyState"]["waitLocation"], Value::from(9));
    assert_eq!(after["partyState"]["extra"], Value::from("x"));
    assert_eq!(after["fowUnrevealersStatusCache"]["a"], Value::from("b"));
}

#[test]
fn database_survives_edit_save_and_reload() {
    let mut db = vec![
        ("money".to_string(), LuaValue::Number(500f64.to_bits())),
        (
            "flags".to_string(),
            LuaValue::Table(vec![("met".to_string(), LuaValue::Boolean(false))]),
        ),
    ];
    let edits = vec![
        LuaEdit { key: "money".to_string(), value: "700".to_string(), number: Some(700f64.to_bits()) },
        LuaEdit { key: "flags.met".to_string(), value: "true".to_string(), number: None },
    ];
    apply_lua_edits(&mut db, &edits);
    let rep = ReputationDisplay { kim: 2.5f64.to_bits(), ..Default::default() };
    apply_reputation(&mut db, &rep);
    let bytes = serialize_lua_database(&db).unwrap();
    let back = parse_lua_data(&bytes, &Vec::new()).unwrap();
    assert_eq!(back, db);
    let flat = flatten_lua(&back, "");
    assert!(flat.contains(&("money".to_string(), LuaValue::Number(700f64.to_bits()))));
    assert!(flat.contains(&("flags.met".to_string(), LuaValue::Boolean(true))));
    assert_eq!(f64::from_bits(reputation_of(&back).kim), 2.5);
    assert_eq!(f64::from_bits(reputation_of(&back).communist), 0.0);
}

fn read_archive(bytes: &[u8]) -> Vec<(String, Vec<u8>)> {
    let mut archive = zip::ZipArchive::new(Cursor::new(bytes.to_vec())).unwrap();
    let mut members = Vec::new();
    for i in 0..archive.len() {
        let mut entry = archive.by_index(i).unwrap();
        let mut content = Vec::new();
        entry.read_to_end(&mut content).unwrap();
        members.push((entry.name().to_string(), content));
    }
    members
}

fn write_archive(members: &[(String, Vec<u8>)]) -> Vec<u8> {
    let mut writer = zip::ZipWriter::new(Cursor::new(Vec::new()));
    for (name, content) in members {
        writer.start_file(name.as_str(), zip::write::SimpleFileOptions::default()).unwrap();
        writer.write_all(content).unwrap();
    }
    writer.finish().unwrap().into_inner()
}

#[test]
fn archive_save_keeps_the_untouched_member() {
    let extra: Vec<u8> = (0..=255u8).cycle().take(5000).collect();
    let states = StatesData {
        area_states: vec![("church".to_string(), 1)],
        shown_orbs: vec![("orb".to_string(), 0)],
    };
    let old = write_archive(&[
        (payload_name("slot1", PayloadKind::FirstJson), b"{}".to_vec()),
        ("extra.txt".to_string(), extra.clone()),
        (payload_name("slot1", PayloadKind::SecondJson), SECOND.as_bytes().to_vec()),
        (payload_name("slot1", PayloadKind::LuaDatabase), serialize_lua_database(&Vec::new()).unwrap()),
        (payload_name("slot1", PayloadKind::TextStates), Vec::new()),
    ]);

    let mut second = load(SECOND);
    apply_second_edits(&mut second, &SaveUpdatePayload { money: 700, ..Default::default() });
    let db = vec![("k".to_string(), LuaValue::Boolean(true))];
    let payloads = Payloads {
        first_json: b"{\n  \"areaId\": \"\"\n}".to_vec(),
        second_json: save(&second).into_bytes(),
        lua_database: serialize_lua_database(&db).unwrap(),
        text_states: serialize_states(&states).into_bytes(),
    };
    let new = write_archive(&rewrite_members(read_archive(&old), "slot1", &payloads));

    let members = read_archive(&new);
    let names: Vec<&str> = members.iter().map(|m| m.0.as_str()).collect();
    assert_eq!(
        names,
        vec![
            "slot1.1st.ntwtf.json",
            "extra.txt",
            "slot1.2nd.ntwtf.json",
            "slot1.ntwtf.lua",
            "slot1.states.lua"
        ]
    );
    assert_eq!(members[1].1, extra);
    assert_eq!(members[0].1, payloads.first_json);
    let reread: Value = serde_json::from_slice(&members[2].1).unwrap();
    assert_eq!(reread["playerCharacter"]["Money"], Value::from(700));
    assert_eq!(parse_lua_data(&members[3].1, &Vec::new()).unwrap(), db);
    assert_eq!(parse_states(&String::from_utf8(members[4].1.clone()).unwrap()), states);
}
