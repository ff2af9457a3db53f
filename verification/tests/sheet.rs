use disco_save::json::{json_int, JsonNumber, JsonValue};
use disco_save::models::{AbilityMapping, GameTimestamp, SkillKeyMap, SkillMapping};
use disco_save::sheet::{
    classify_key, modifier_of, parse_character_sheet, read_integer, skill_entry_of, text_list,
    CharacterSheet, ModifierCause, ModifierEntry, SheetField,
};

fn obj(members: Vec<(&str, JsonValue)>) -> JsonValue {
    JsonValue::Object(members.into_iter().map(|(k, v)| (k.to_string(), v)).collect())
}

fn text(s: &str) -> JsonValue {
    JsonValue::String(s.to_string())
}

fn key_map() -> SkillKeyMap {
    SkillKeyMap {
        abilities: vec![
            AbilityMapping { save_key: "intellect".to_string(), skill_type: "INT".to_string(), display_name: "Intellect".to_string(), skills: vec![] },
            AbilityMapping { save_key: "psyche".to_string(), skill_type: "PSY".to_string(), display_name: "Psyche".to_string(), skills: vec![] },
            AbilityMapping { save_key: "intellect".to_string(), skill_type: "INT2".to_string(), display_name: "Again".to_string(), skills: vec![] },
        ],
        skills: vec![
            SkillMapping { save_key: "logic".to_string(), skill_type: "LOGIC".to_string(), display_name: "Logic".to_string(), ability: "INT".to_string() },
            SkillMapping { save_key: "drama".to_string(), skill_type: "DRAMA".to_string(), display_name: "Drama".to_string(), ability: "INT".to_string() },
            SkillMapping { save_key: "gainedItems".to_string(), skill_type: "ODD".to_string(), display_name: "Odd".to_string(), ability: "".to_string() },
        ],
        ..Default::default()
    }
}

#[test]
fn catalog_is_searched_in_order() {
    let km = key_map();
    assert_eq!(km.ability_keys(), vec!["intellect", "psyche"]);
    assert_eq!(km.skill_keys(), vec!["logic", "drama", "gainedItems"]);
    assert_eq!(km.find_by_save_key("drama").map(|m| m.skill_type.as_str()), Some("DRAMA"));
    assert_eq!(km.find_by_save_key("intellect"), None);
    assert_eq!(km.find_ability_by_save_key("intellect").map(|m| m.skill_type.as_str()), Some("INT"));
    assert_eq!(km.find_ability_by_save_key("logic"), None);
    assert_eq!(km.find_by_skill_type("LOGIC").map(|m| m.save_key.as_str()), Some("logic"));
    assert_eq!(km.find_by_skill_type("logic"), None);
}

#[test]
fn clock_gives_hours_and_minutes() {
    let t = GameTimestamp { day_minutes: 817, ..Default::default() };
    assert_eq!(t.hours(), 13);
    assert_eq!(t.minutes(), 37);
    let negative = GameTimestamp { day_minutes: -61, ..Default::default() };
    assert_eq!(negative.hours(), -1);
    assert_eq!(negative.minutes(), -1);
    let zero = GameTimestamp::default();
    assert_eq!((zero.hours(), zero.minutes()), (0, 0));
}

#[test]
fn keys_are_sorted_with_the_catalog_first() {
    let a = vec!["intellect".to_string()];
    let s = vec!["logic".to_string(), "gainedItems".to_string(), "intellect".to_string()];
    assert_eq!(classify_key("intellect", &a, &s), SheetField::Ability);
    assert_eq!(classify_key("logic", &a, &s), SheetField::Skill);
    assert_eq!(classify_key("gainedItems", &a, &s), SheetField::Skill);
    assert_eq!(classify_key("gainedItems", &a, &a), SheetField::GainedItems);
    assert_eq!(classify_key("equippedItems", &a, &s), SheetField::EquippedItems);
    assert_eq!(classify_key("gainedThoughts", &a, &s), SheetField::GainedThoughts);
    assert_eq!(classify_key("cookingThoughts", &a, &s), SheetField::CookingThoughts);
    assert_eq!(classify_key("fixedThoughts", &a, &s), SheetField::FixedThoughts);
    assert_eq!(classify_key("forgottenThoughts", &a, &s), SheetField::ForgottenThoughts);
    assert_eq!(classify_key("selectedPanelName", &a, &s), SheetField::SelectedPanelName);
    assert_eq!(classify_key("SkillModifierCauseMap", &a, &s), SheetField::SkillModifierCauseMap);
    assert_eq!(classify_key("AbilityModifierCauseMap", &a, &s), SheetField::AbilityModifierCauseMap);
    assert_eq!(classify_key("skillModifierCauseMap", &a, &s), SheetField::Other);
    assert_eq!(classify_key("", &a, &s), SheetField::Other);
}

#[test]
fn entry_is_read_under_either_spelling() {
    let v = obj(vec![
        ("skillType", text("LOGIC")),
        ("ability_type", text("INT")),
        ("dirty", JsonValue::Bool(true)),
        ("value", json_int(3)),
        ("maximumValue", json_int(6)),
        ("damage_value", json_int(-1)),
        ("isSignature", JsonValue::Bool(true)),
        ("modifiers", JsonValue::Array(vec![json_int(1)])),
        ("unknown", text("ignored")),
    ]);
    let e = skill_entry_of(&v).unwrap();
    assert_eq!(e.skill_type, "LOGIC");
    assert_eq!(e.ability_type, "INT");
    assert!(e.dirty);
    assert_eq!(e.value, 3);
    assert_eq!(e.maximum_value, 6);
    assert_eq!(e.damage_value, -1);
    assert_eq!(e.rank_value, 0);
    assert!(!e.has_advancement);
    assert!(e.is_signature);
    assert_eq!(e.modifiers, JsonValue::Array(vec![json_int(1)]));
    let empty = skill_entry_of(&obj(vec![])).unwrap();
    assert_eq!(empty.skill_type, "");
    assert_eq!(empty.value, 0);
    assert_eq!(empty.modifiers, JsonValue::Null);
}

#[test]
fn entry_of_the_wrong_shape_is_refused() {
    assert_eq!(skill_entry_of(&JsonValue::Null), None);
    assert_eq!(skill_entry_of(&JsonValue::Array(vec![])), None);
    assert_eq!(skill_entry_of(&obj(vec![("value", text("3"))])), None);
    assert_eq!(skill_entry_of(&obj(vec![("dirty", json_int(1))])), None);
    assert_eq!(skill_entry_of(&obj(vec![("skillType", JsonValue::Null)])), None);
    assert_eq!(
        skill_entry_of(&obj(vec![("value", JsonValue::Number(JsonNumber::Float(3.0f64.to_bits())))])),
        None
    );
    assert_eq!(
        skill_entry_of(&obj(vec![("value", JsonValue::Number(JsonNumber::PosInt(u64::MAX)))])),
        None
    );
    assert_eq!(
        skill_entry_of(&obj(vec![("skill_type", text("a")), ("skillType", text("b"))])),
        None
    );
}

#[test]
fn integer_field_reads_integers_that_fit() {
    let ms = vec![
        ("a".to_string(), JsonValue::Number(JsonNumber::PosInt(i64::MAX as u64))),
        ("b".to_string(), JsonValue::Number(JsonNumber::NegInt(i64::MIN))),
        ("c".to_string(), JsonValue::Number(JsonNumber::PosInt(i64::MAX as u64 + 1))),
    ];
    assert_eq!(read_integer(&ms, "a", "A"), Some(i64::MAX));
    assert_eq!(read_integer(&ms, "B", "b"), Some(i64::MIN));
    assert_eq!(read_integer(&ms, "c", "c"), None);
    assert_eq!(read_integer(&ms, "d", "D"), Some(0));
    assert_eq!(read_integer(&ms, "a", "b"), None);
}

#[test]
fn modifier_is_read_with_its_cause() {
    let v = obj(vec![
        ("type", text("INVENTORY_ITEM")),
        ("amount", json_int(2)),
        ("explanation", text("hat")),
        ("skillType", text("LOGIC")),
        ("modifierCause", obj(vec![("ModifierKey", text("hat_key")), ("ModifierCauseType", text("ITEM"))])),
    ]);
    assert_eq!(
        modifier_of(&v),
        Some(ModifierEntry {
            modifier_type: "INVENTORY_ITEM".to_string(),
            amount: 2,
            explanation: "hat".to_string(),
            skill_type: "LOGIC".to_string(),
            modifier_cause: ModifierCause {
                modifier_key: "hat_key".to_string(),
                modifier_cause_type: "ITEM".to_string(),
            },
        })
    );
    assert_eq!(modifier_of(&obj(vec![])), Some(ModifierEntry::default()));
    assert_eq!(modifier_of(&obj(vec![("modifierCause", json_int(1))])), None);
    assert_eq!(modifier_of(&obj(vec![("amount", text("2"))])), None);
}

#[test]
fn list_of_texts_is_all_or_nothing() {
    assert_eq!(text_list(&JsonValue::Array(vec![text("a"), text("b")])), Some(vec!["a".to_string(), "b".to_string()]));
    assert_eq!(text_list(&JsonValue::Array(vec![])), Some(vec![]));
    assert_eq!(text_list(&JsonValue::Array(vec![text("a"), json_int(1)])), None);
    assert_eq!(text_list(&text("a")), None);
}

#[test]
fn sheet_is_read_member_by_member() {
    let raw = obj(vec![
        ("intellect", obj(vec![("value", json_int(4)), ("isSignature", JsonValue::Bool(true))])),
        ("psyche", obj(vec![("value", text("broken"))])),
        ("logic", obj(vec![("value", json_int(2)), ("abilityType", text("INT"))])),
        ("drama", json_int(7)),
        ("gainedItems", JsonValue::Array(vec![text("ignored because the catalog names it a skill")])),
        ("equippedItems", JsonValue::Array(vec![text("jacket")])),
        ("gainedThoughts", JsonValue::Array(vec![text("hobocop"), text("wompty")])),
        ("cookingThoughts", JsonValue::Array(vec![text("wompty"), json_int(1)])),
        ("fixedThoughts", text("not a list")),
        ("selectedPanelName", text("SKILLS")),
        (
            "SkillModifierCauseMap",
            obj(vec![
                ("LOGIC", JsonValue::Array(vec![obj(vec![("type", text("T")), ("amount", json_int(1))])])),
                ("DRAMA", JsonValue::Array(vec![])),
            ]),
        ),
        ("AbilityModifierCauseMap", obj(vec![("INT", JsonValue::Array(vec![json_int(1)]))])),
        ("somethingElse", json_int(1)),
    ]);
    let sheet = parse_character_sheet(&raw, &key_map());
    assert_eq!(sheet.abilities.len(), 1);
    assert_eq!(sheet.abilities[0].0, "intellect");
    assert_eq!(sheet.abilities[0].1.value, 4);
    assert!(sheet.abilities[0].1.is_signature);
    assert_eq!(sheet.skills.len(), 1);
    assert_eq!(sheet.skills[0].0, "logic");
    assert_eq!(sheet.skills[0].1.ability_type, "INT");
    assert_eq!(sheet.gained_items, Vec::<String>::new());
    assert_eq!(sheet.equipped_items, vec!["jacket"]);
    assert_eq!(sheet.gained_thoughts, vec!["hobocop", "wompty"]);
    assert_eq!(sheet.cooking_thoughts, Vec::<String>::new());
    assert_eq!(sheet.fixed_thoughts, Vec::<String>::new());
    assert_eq!(sheet.forgotten_thoughts, Vec::<String>::new());
    assert_eq!(sheet.selected_panel_name, "SKILLS");
    assert_eq!(sheet.skill_modifier_cause_map.len(), 2);
    assert_eq!(sheet.skill_modifier_cause_map[0].0, "LOGIC");
    assert_eq!(sheet.skill_modifier_cause_map[0].1[0].modifier_type, "T");
    assert_eq!(sheet.skill_modifier_cause_map[0].1[0].amount, 1);
    assert_eq!(sheet.skill_modifier_cause_map[1].1.len(), 0);
    assert_eq!(sheet.ability_modifier_cause_map.len(), 0);
}

#[test]
fn node_that_is_no_object_holds_an_empty_sheet() {
    assert_eq!(parse_character_sheet(&JsonValue::Null, &key_map()), CharacterSheet::default());
    assert_eq!(parse_character_sheet(&text("x"), &key_map()), CharacterSheet::default());
}
