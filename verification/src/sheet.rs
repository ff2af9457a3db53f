//! The character sheet: the typed view of one object of the second payload.
//! Each member is sorted, by its key, with the abilities, with the skills,
//! with one of the named collections, or with nothing.

use vstd::prelude::*;
use crate::json::{array_view, find_member, object_view, JsonModel, JsonNumber, JsonValue, Members};
use crate::models::{distinct_texts, holds_text, texts_view, SkillKeyMap};
use crate::models::{ability_key_texts, skill_key_texts};
use crate::text::{copy_text, same_text};
use crate::value::{key_index, lookup};

verus! {

/// What caused a modifier.
#[derive(Debug, Clone, PartialEq, Default)]
pub struct ModifierCause {
    pub modifier_key: String,
    pub modifier_cause_type: String,
}

/// One modifier of a skill or an ability.
#[derive(Debug, Clone, PartialEq, Default)]
pub struct ModifierEntry {
    pub modifier_type: String,
    pub amount: i64,
    pub explanation: String,
    pub skill_type: String,
    pub modifier_cause: ModifierCause,
}

/// The entry of one skill or ability in the character sheet.
#[derive(Debug, PartialEq)]
pub struct SkillEntry {
    pub skill_type: String,
    pub ability_type: String,
    pub dirty: bool,
    pub value: i64,
    pub value_without_perceptions_sub_skills: i64,
    pub damage_value: i64,
    pub maximum_value: i64,
    pub calculated_ability: i64,
    pub rank_value: i64,
    pub has_advancement: bool,
    pub is_signature: bool,
    pub modifiers: JsonValue,
}

/// The typed view of the character sheet.
#[derive(Debug, PartialEq)]
pub struct CharacterSheet {
    pub abilities: Vec<(String, SkillEntry)>,
    pub skills: Vec<(String, SkillEntry)>,
    pub gained_items: Vec<String>,
    pub equipped_items: Vec<String>,
    pub gained_thoughts: Vec<String>,
    pub cooking_thoughts: Vec<String>,
    pub fixed_thoughts: Vec<String>,
    pub forgotten_thoughts: Vec<String>,
    pub selected_panel_name: String,
    pub skill_modifier_cause_map: Vec<(String, Vec<ModifierEntry>)>,
    pub ability_modifier_cause_map: Vec<(String, Vec<ModifierEntry>)>,
}

impl Default for CharacterSheet {
    fn default() -> (r: CharacterSheet)
        ensures
            r.abilities@.len() == 0,
            r.skills@.len() == 0,
            r.gained_items@.len() == 0,
            r.equipped_items@.len() == 0,
            r.gained_thoughts@.len() == 0,
            r.cooking_thoughts@.len() == 0,
            r.fixed_thoughts@.len() == 0,
            r.forgotten_thoughts@.len() == 0,
            r.selected_panel_name@.len() == 0,
            r.skill_modifier_cause_map@.len() == 0,
            r.ability_modifier_cause_map@.len() == 0,
    {
        CharacterSheet {
            abilities: Vec::new(),
            skills: Vec::new(),
            gained_items: Vec::new(),
            equipped_items: Vec::new(),
            gained_thoughts: Vec::new(),
            cooking_thoughts: Vec::new(),
            fixed_thoughts: Vec::new(),
            forgotten_thoughts: Vec::new(),
            selected_panel_name: String::new(),
            skill_modifier_cause_map: Vec::new(),
            ability_modifier_cause_map: Vec::new(),
        }
    }
}

/// With what a member of the character sheet is sorted.
#[derive(Clone, Copy, Debug, PartialEq, Eq, Structural)]
pub enum SheetField {
    Ability,
    Skill,
    GainedItems,
    EquippedItems,
    GainedThoughts,
    CookingThoughts,
    FixedThoughts,
    ForgottenThoughts,
    SelectedPanelName,
    SkillModifierCauseMap,
    AbilityModifierCauseMap,
    /// A member that the typed view does not show.
    Other,
}

/// With what the member under `key` is sorted: with the abilities where the
/// catalog names the key as an ability's, else with the skills where it names
/// it as a skill's, else by the key's own name.
pub open spec fn spec_classify(
    key: Seq<char>,
    ability_keys: Seq<Seq<char>>,
    skill_keys: Seq<Seq<char>>,
) -> SheetField {
    if ability_keys.contains(key) {
        SheetField::Ability
    } else if skill_keys.contains(key) {
        SheetField::Skill
    } else if key == "gainedItems"@ {
        SheetField::GainedItems
    } else if key == "equippedItems"@ {
        SheetField::EquippedItems
    } else if key == "gainedThoughts"@ {
        SheetField::GainedThoughts
    } else if key == "cookingThoughts"@ {
        SheetField::CookingThoughts
    } else if key == "fixedThoughts"@ {
        SheetField::FixedThoughts
    } else if key == "forgottenThoughts"@ {
        SheetField::ForgottenThoughts
    } else if key == "selectedPanelName"@ {
        SheetField::SelectedPanelName
    } else if key == "SkillModifierCauseMap"@ {
        SheetField::SkillModifierCauseMap
    } else if key == "AbilityModifierCauseMap"@ {
        SheetField::AbilityModifierCauseMap
    } else {
        SheetField::Other
    }
}

/// With what the member under `key` is sorted.
pub fn classify_key(key: &str, ability_keys: &Vec<String>, skill_keys: &Vec<String>) -> (r:
    SheetField)
    ensures
        r == spec_classify(key@, texts_view(ability_keys@), texts_view(skill_keys@)),
{
    if holds_text(ability_keys, key) {
        SheetField::Ability
    } else if holds_text(skill_keys, key) {
        SheetField::Skill
    } else if same_text(key, "gainedItems") {
        SheetField::GainedItems
    } else if same_text(key, "equippedItems") {
        SheetField::EquippedItems
    } else if same_text(key, "gainedThoughts") {
        SheetField::GainedThoughts
    } else if same_text(key, "cookingThoughts") {
        SheetField::CookingThoughts
    } else if same_text(key, "fixedThoughts") {
        SheetField::FixedThoughts
    } else if same_text(key, "forgottenThoughts") {
        SheetField::ForgottenThoughts
    } else if same_text(key, "selectedPanelName") {
        SheetField::SelectedPanelName
    } else if same_text(key, "SkillModifierCauseMap") {
        SheetField::SkillModifierCauseMap
    } else if same_text(key, "AbilityModifierCauseMap") {
        SheetField::AbilityModifierCauseMap
    } else {
        SheetField::Other
    }
}

// ---------------------------------------------------------------------------
// Typed members of an object
// ---------------------------------------------------------------------------

/// The member that an object holds for a field: the one under the field's
/// name, else the one under its other spelling.
pub open spec fn field_member(ms: Members, name: Seq<char>, other: Seq<char>) -> Option<JsonModel> {
    match lookup(ms, name) {
        Some(v) => Some(v),
        None => lookup(ms, other),
    }
}

/// The object holds a field twice: under its name and under its other
/// spelling.
pub open spec fn field_twice(ms: Members, name: Seq<char>, other: Seq<char>) -> bool {
    name != other && key_index(ms, name) is Some && key_index(ms, other) is Some
}

/// The integer that a node holds, if it holds one that fits 64 bits with a
/// sign.
pub open spec fn as_integer(v: JsonModel) -> Option<i64> {
    match v {
        JsonModel::Number(JsonNumber::PosInt(u)) => if u <= i64::MAX {
            Some(u as i64)
        } else {
            None
        },
        JsonModel::Number(JsonNumber::NegInt(i)) => Some(i),
        _ => None,
    }
}

/// The truth value that a node holds, if it holds one.
pub open spec fn as_truth(v: JsonModel) -> Option<bool> {
    match v {
        JsonModel::Bool(b) => Some(b),
        _ => None,
    }
}

/// The text that a node holds, if it holds one.
pub open spec fn as_text(v: JsonModel) -> Option<Seq<char>> {
    match v {
        JsonModel::Text(s) => Some(s),
        _ => None,
    }
}

/// What an integer field reads from an object: the integer of its member, 0
/// where the object has no such member, and nothing where the member holds no
/// integer or the object holds the field twice.
pub open spec fn integer_field(ms: Members, name: Seq<char>, other: Seq<char>) -> Option<i64> {
    if field_twice(ms, name, other) {
        None
    } else {
        match field_member(ms, name, other) {
            Some(v) => as_integer(v),
            None => Some(0),
        }
    }
}

/// What a boolean field reads from an object: as `integer_field`, with false
/// for a missing member.
pub open spec fn truth_field(ms: Members, name: Seq<char>, other: Seq<char>) -> Option<bool> {
    if field_twice(ms, name, other) {
        None
    } else {
        match field_member(ms, name, other) {
            Some(v) => as_truth(v),
            None => Some(false),
        }
    }
}

/// What a text field reads from an object: as `integer_field`, with the empty
/// text for a missing member.
pub open spec fn text_field(ms: Members, name: Seq<char>, other: Seq<char>) -> Option<Seq<char>> {
    if field_twice(ms, name, other) {
        None
    } else {
        match field_member(ms, name, other) {
            Some(v) => as_text(v),
            None => Some(Seq::empty()),
        }
    }
}

/// The member that the object holds for a field, or that it holds the field
/// twice.
pub fn field_of<'a>(ms: &'a Vec<(String, JsonValue)>, name: &str, other: &str) -> (r: Result<
    Option<&'a JsonValue>,
    (),
>)
    ensures
        match r {
            Ok(Some(v)) => !field_twice(object_view(ms@), name@, other@) && field_member(
                object_view(ms@),
                name@,
                other@,
            ) == Some(v@),
            Ok(None) => !field_twice(object_view(ms@), name@, other@) && field_member(
                object_view(ms@),
                name@,
                other@,
            ) is None,
            Err(_) => field_twice(object_view(ms@), name@, other@),
        },
{
    let first = find_member(ms, name);
    if same_text(name, other) {
        return match first {
            Some(i) => Ok(Some(&ms[i].1)),
            None => Ok(None),
        };
    }
    let second = find_member(ms, other);
    match (first, second) {
        (Some(_), Some(_)) => Err(()),
        (Some(i), None) => Ok(Some(&ms[i].1)),
        (None, Some(j)) => Ok(Some(&ms[j].1)),
        (None, None) => Ok(None),
    }
}

/// Reads an integer field.
pub fn read_integer(ms: &Vec<(String, JsonValue)>, name: &str, other: &str) -> (r: Option<i64>)
    ensures
        r == integer_field(object_view(ms@), name@, other@),
{
    match field_of(ms, name, other) {
        Err(_) => None,
        Ok(None) => Some(0),
        Ok(Some(v)) => match v {
            JsonValue::Number(JsonNumber::PosInt(u)) => if *u <= i64::MAX as u64 {
                Some(*u as i64)
            } else {
                None
            },
            JsonValue::Number(JsonNumber::NegInt(i)) => Some(*i),
            _ => None,
        },
    }
}

/// Reads a boolean field.
pub fn read_truth(ms: &Vec<(String, JsonValue)>, name: &str, other: &str) -> (r: Option<bool>)
    ensures
        r == truth_field(object_view(ms@), name@, other@),
{
    match field_of(ms, name, other) {
        Err(_) => None,
        Ok(None) => Some(false),
        Ok(Some(v)) => match v {
            JsonValue::Bool(b) => Some(*b),
            _ => None,
        },
    }
}

/// Reads a text field.
pub fn read_text_field(ms: &Vec<(String, JsonValue)>, name: &str, other: &str) -> (r: Option<
    String,
>)
    ensures
        match text_field(object_view(ms@), name@, other@) {
            Some(t) => r matches Some(s) && s@ == t,
            None => r is None,
        },
{
    match field_of(ms, name, other) {
        Err(_) => None,
        Ok(None) => Some(String::new()),
        Ok(Some(v)) => match v {
            JsonValue::String(s) => Some(copy_text(s.as_str())),
            _ => None,
        },
    }
}

/// The texts of an array of texts; nothing where the node is no array or an
/// item is no text.
pub open spec fn spec_text_list(v: JsonModel) -> Option<Seq<Seq<char>>> {
    match v {
        JsonModel::Array(items) => if forall|i: int|
            0 <= i < items.len() ==> (#[trigger] items[i]) is Text {
            Some(Seq::new(items.len(), |i: int| items[i]->Text_0))
        } else {
            None
        },
        _ => None,
    }
}

/// The texts of an array of texts.
pub fn text_list(v: &JsonValue) -> (r: Option<Vec<String>>)
    ensures
        match spec_text_list(v@) {
            Some(ts) => r matches Some(list) && texts_view(list@) == ts,
            None => r is None,
        },
{
    match v {
        JsonValue::Array(items) => {
            let mut out: Vec<String> = Vec::new();
            let mut i: usize = 0;
            while i < items.len()
                invariant
                    i <= items.len(),
                    out.len() == i,
                    v@ == JsonModel::Array(array_view(items@)),
                    forall|j: int| 0 <= j < i ==> (#[trigger] array_view(items@)[j]) is Text,
                    forall|j: int|
                        0 <= j < i ==> (#[trigger] out@[j])@ == array_view(items@)[j]->Text_0,
                decreases items.len() - i,
            {
                match &items[i] {
                    JsonValue::String(s) => {
                        out.push(copy_text(s.as_str()));
                    },
                    _ => {
                        assert(!(array_view(items@)[i as int] is Text));
                        return None;
                    },
                }
                i += 1;
            }
            assert(texts_view(out@) =~= spec_text_list(v@)->0);
            Some(out)
        },
        _ => None,
    }
}

/// The texts of an array of texts, or none where the node is no such array.
pub fn text_list_or_empty(v: &JsonValue) -> (r: Vec<String>)
    ensures
        texts_view(r@) == (match spec_text_list(v@) {
            Some(ts) => ts,
            None => Seq::empty(),
        }),
{
    match text_list(v) {
        Some(list) => list,
        None => {
            let list: Vec<String> = Vec::new();
            assert(texts_view(list@) =~= Seq::<Seq<char>>::empty());
            list
        },
    }
}

// ---------------------------------------------------------------------------
// The entries of the character sheet
// ---------------------------------------------------------------------------

/// `c` is what the object `v` holds of a modifier's cause.
pub open spec fn is_cause(c: ModifierCause, v: JsonModel) -> bool {
    &&& v matches JsonModel::Object(ms)
    &&& text_field(ms, "modifier_key"@, "ModifierKey"@) == Some(c.modifier_key@)
    &&& text_field(ms, "modifier_cause_type"@, "ModifierCauseType"@) == Some(
        c.modifier_cause_type@,
    )
}

/// The node can be read as a modifier's cause: it is an object whose members
/// for the two fields, where it has them, are texts, each field once.
pub open spec fn cause_readable(v: JsonModel) -> bool {
    &&& v matches JsonModel::Object(ms)
    &&& text_field(ms, "modifier_key"@, "ModifierKey"@) is Some
    &&& text_field(ms, "modifier_cause_type"@, "ModifierCauseType"@) is Some
}

/// Reads a modifier's cause from an object, member by member under the keys
/// of the fields. Any other node is refused, an array too: its items are not
/// taken for the fields by their places.
pub fn cause_of(v: &JsonValue) -> (r: Option<ModifierCause>)
    ensures
        match r {
            Some(c) => is_cause(c, v@),
            None => !cause_readable(v@),
        },
{
    match v {
        JsonValue::Object(ms) => {
            let modifier_key = match read_text_field(ms, "modifier_key", "ModifierKey") {
                Some(x) => x,
                None => {
                    return None;
                },
            };
            let modifier_cause_type = match read_text_field(
                ms,
                "modifier_cause_type",
                "ModifierCauseType",
            ) {
                Some(x) => x,
                None => {
                    return None;
                },
            };
            Some(ModifierCause { modifier_key, modifier_cause_type })
        },
        _ => None,
    }
}

/// `e` is what the object `v` holds of a modifier. A missing cause is one of
/// two empty texts.
pub open spec fn is_modifier(e: ModifierEntry, v: JsonModel) -> bool {
    &&& v matches JsonModel::Object(ms)
    &&& text_field(ms, "modifier_type"@, "type"@) == Some(e.modifier_type@)
    &&& integer_field(ms, "amount"@, "amount"@) == Some(e.amount)
    &&& text_field(ms, "explanation"@, "explanation"@) == Some(e.explanation@)
    &&& text_field(ms, "skill_type"@, "skillType"@) == Some(e.skill_type@)
    &&& !field_twice(ms, "modifier_cause"@, "modifierCause"@)
    &&& match field_member(ms, "modifier_cause"@, "modifierCause"@) {
        Some(c) => is_cause(e.modifier_cause, c),
        None => e.modifier_cause.modifier_key@.len() == 0
            && e.modifier_cause.modifier_cause_type@.len() == 0,
    }
}

/// The node can be read as a modifier.
pub open spec fn modifier_readable(v: JsonModel) -> bool {
    &&& v matches JsonModel::Object(ms)
    &&& text_field(ms, "modifier_type"@, "type"@) is Some
    &&& integer_field(ms, "amount"@, "amount"@) is Some
    &&& text_field(ms, "explanation"@, "explanation"@) is Some
    &&& text_field(ms, "skill_type"@, "skillType"@) is Some
    &&& !field_twice(ms, "modifier_cause"@, "modifierCause"@)
    &&& match field_member(ms, "modifier_cause"@, "modifierCause"@) {
        Some(c) => cause_readable(c),
        None => true,
    }
}

/// Reads a modifier from an object, member by member under the keys of the
/// fields. Any other node is refused, an array too: its items are not taken
/// for the fields by their places.
pub fn modifier_of(v: &JsonValue) -> (r: Option<ModifierEntry>)
    ensures
        match r {
            Some(e) => is_modifier(e, v@),
            None => !modifier_readable(v@),
        },
{
    match v {
        JsonValue::Object(ms) => {
            let modifier_type = match read_text_field(ms, "modifier_type", "type") {
                Some(x) => x,
                None => {
                    return None;
                },
            };
            let amount = match read_integer(ms, "amount", "amount") {
                Some(x) => x,
                None => {
                    return None;
                },
            };
            let explanation = match read_text_field(ms, "explanation", "explanation") {
                Some(x) => x,
                None => {
                    return None;
                },
            };
            let skill_type = match read_text_field(ms, "skill_type", "skillType") {
                Some(x) => x,
                None => {
                    return None;
                },
            };
            let modifier_cause = match field_of(ms, "modifier_cause", "modifierCause") {
                Err(_) => {
                    return None;
                },
                Ok(None) => ModifierCause {
                    modifier_key: String::new(),
                    modifier_cause_type: String::new(),
                },
                Ok(Some(c)) => match cause_of(c) {
                    Some(x) => x,
                    None => {
                        return None;
                    },
                },
            };
            Some(ModifierEntry { modifier_type, amount, explanation, skill_type, modifier_cause })
        },
        _ => None,
    }
}

/// `e` is what the object `v` holds of a skill or an ability. Missing
/// modifiers are null.
pub open spec fn is_skill_entry(e: SkillEntry, v: JsonModel) -> bool {
    &&& v matches JsonModel::Object(ms)
    &&& text_field(ms, "skill_type"@, "skillType"@) == Some(e.skill_type@)
    &&& text_field(ms, "ability_type"@, "abilityType"@) == Some(e.ability_type@)
    &&& truth_field(ms, "dirty"@, "dirty"@) == Some(e.dirty)
    &&& integer_field(ms, "value"@, "value"@) == Some(e.value)
    &&& integer_field(
        ms,
        "value_without_perceptions_sub_skills"@,
        "valueWithoutPerceptionsSubSkills"@,
    ) == Some(e.value_without_perceptions_sub_skills)
    &&& integer_field(ms, "damage_value"@, "damageValue"@) == Some(e.damage_value)
    &&& integer_field(ms, "maximum_value"@, "maximumValue"@) == Some(e.maximum_value)
    &&& integer_field(ms, "calculated_ability"@, "calculatedAbility"@) == Some(
        e.calculated_ability,
    )
    &&& integer_field(ms, "rank_value"@, "rankValue"@) == Some(e.rank_value)
    &&& truth_field(ms, "has_advancement"@, "hasAdvancement"@) == Some(e.has_advancement)
    &&& truth_field(ms, "is_signature"@, "isSignature"@) == Some(e.is_signature)
    &&& e.modifiers@ == (match lookup(ms, "modifiers"@) {
        Some(m) => m,
        None => JsonModel::Null,
    })
}

/// The node can be read as the entry of a skill or an ability: it is an object
/// whose members for the fields, where it has them, are of the fields' kinds,
/// each field once.
pub open spec fn skill_entry_readable(v: JsonModel) -> bool {
    &&& v matches JsonModel::Object(ms)
    &&& text_field(ms, "skill_type"@, "skillType"@) is Some
    &&& text_field(ms, "ability_type"@, "abilityType"@) is Some
    &&& truth_field(ms, "dirty"@, "dirty"@) is Some
    &&& integer_field(ms, "value"@, "value"@) is Some
    &&& integer_field(
        ms,
        "value_without_perceptions_sub_skills"@,
        "valueWithoutPerceptionsSubSkills"@,
    ) is Some
    &&& integer_field(ms, "damage_value"@, "damageValue"@) is Some
    &&& integer_field(ms, "maximum_value"@, "maximumValue"@) is Some
    &&& integer_field(ms, "calculated_ability"@, "calculatedAbility"@) is Some
    &&& integer_field(ms, "rank_value"@, "rankValue"@) is Some
    &&& truth_field(ms, "has_advancement"@, "hasAdvancement"@) is Some
    &&& truth_field(ms, "is_signature"@, "isSignature"@) is Some
}

/// Reads the entry of a skill or an ability from an object, member by member
/// under the keys of the fields. Any other node is refused, an array too: its
/// items are not taken for the fields by their places.
pub fn skill_entry_of(v: &JsonValue) -> (r: Option<SkillEntry>)
    ensures
        match r {
            Some(e) => is_skill_entry(e, v@),
            None => !skill_entry_readable(v@),
        },
{
    match v {
        JsonValue::Object(ms) => {
            let skill_type = match read_text_field(ms, "skill_type", "skillType") {
                Some(x) => x,
                None => {
                    return None;
                },
            };
            let ability_type = match read_text_field(ms, "ability_type", "abilityType") {
                Some(x) => x,
                None => {
                    return None;
                },
            };
            let dirty = match read_truth(ms, "dirty", "dirty") {
                Some(x) => x,
                None => {
                    return None;
                },
            };
            let value = match read_integer(ms, "value", "value") {
                Some(x) => x,
                None => {
                    return None;
                },
            };
            let value_without_perceptions_sub_skills = match read_integer(
                ms,
                "value_without_perceptions_sub_skills",
                "valueWithoutPerceptionsSubSkills",
            ) {
                Some(x) => x,
                None => {
                    return None;
                },
            };
            let damage_value = match read_integer(ms, "damage_value", "damageValue") {
                Some(x) => x,
                None => {
                    return None;
                },
            };
            let maximum_value = match read_integer(ms, "maximum_value", "maximumValue") {
                Some(x) => x,
                None => {
                    return None;
                },
            };
            let calculated_ability = match read_integer(
                ms,
                "calculated_ability",
                "calculatedAbility",
            ) {
                Some(x) => x,
                None => {
                    return None;
                },
            };
            let rank_value = match read_integer(ms, "rank_value", "rankValue") {
                Some(x) => x,
                None => {
                    return None;
                },
            };
            let has_advancement = match read_truth(ms, "has_advancement", "hasAdvancement") {
                Some(x) => x,
                None => {
                    return None;
                },
            };
            let is_signature = match read_truth(ms, "is_signature", "isSignature") {
                Some(x) => x,
                None => {
                    return None;
                },
            };
            let modifiers = match find_member(ms, "modifiers") {
                Some(i) => ms[i].1.duplicate(),
                None => JsonValue::Null,
            };
            Some(
                SkillEntry {
                    skill_type,
                    ability_type,
                    dirty,
                    value,
                    value_without_perceptions_sub_skills,
                    damage_value,
                    maximum_value,
                    calculated_ability,
                    rank_value,
                    has_advancement,
                    is_signature,
                    modifiers,
                },
            )
        },
        _ => None,
    }
}

/// `list` is what the array `v` holds of modifiers, item by item.
pub open spec fn is_modifier_list(list: Seq<ModifierEntry>, v: JsonModel) -> bool {
    &&& v matches JsonModel::Array(items)
    &&& list.len() == items.len()
    &&& forall|j: int| 0 <= j < items.len() ==> is_modifier(#[trigger] list[j], items[j])
}

/// The node can be read as a list of modifiers.
pub open spec fn modifier_list_readable(v: JsonModel) -> bool {
    &&& v matches JsonModel::Array(items)
    &&& forall|j: int| 0 <= j < items.len() ==> modifier_readable(#[trigger] items[j])
}

/// Reads a list of modifiers.
pub fn modifier_list_of(v: &JsonValue) -> (r: Option<Vec<ModifierEntry>>)
    ensures
        match r {
            Some(list) => is_modifier_list(list@, v@),
            None => !modifier_list_readable(v@),
        },
{
    match v {
        JsonValue::Array(items) => {
            let mut out: Vec<ModifierEntry> = Vec::new();
            let mut i: usize = 0;
            while i < items.len()
                invariant
                    i <= items.len(),
                    out.len() == i,
                    v@ == JsonModel::Array(array_view(items@)),
                    forall|j: int|
                        0 <= j < i ==> is_modifier(#[trigger] out@[j], array_view(items@)[j]),
                decreases items.len() - i,
            {
                match modifier_of(&items[i]) {
                    Some(e) => {
                        out.push(e);
                    },
                    None => {
                        proof {
                            let arr = v@->Array_0;
                            assert(arr[i as int] == items@[i as int]@);
                            assert(!modifier_readable(arr[i as int]));
                        }
                        return None;
                    },
                }
                i += 1;
            }
            Some(out)
        },
        _ => None,
    }
}

/// `map` is what the object `v` holds of lists of modifiers, member by member.
pub open spec fn is_modifier_map(map: Seq<(String, Vec<ModifierEntry>)>, v: JsonModel) -> bool {
    &&& v matches JsonModel::Object(ms)
    &&& map.len() == ms.len()
    &&& forall|i: int|
        0 <= i < ms.len() ==> (#[trigger] map[i]).0@ == ms[i].0 && is_modifier_list(
            map[i].1@,
            ms[i].1,
        )
}

/// The node can be read as lists of modifiers under keys.
pub open spec fn modifier_map_readable(v: JsonModel) -> bool {
    &&& v matches JsonModel::Object(ms)
    &&& forall|i: int| 0 <= i < ms.len() ==> modifier_list_readable((#[trigger] ms[i]).1)
}

/// Reads lists of modifiers under keys; none where the node cannot be read as
/// such.
pub fn modifier_map_of(v: &JsonValue) -> (r: Vec<(String, Vec<ModifierEntry>)>)
    ensures
        if modifier_map_readable(v@) {
            is_modifier_map(r@, v@)
        } else {
            r@.len() == 0
        },
{
    match v {
        JsonValue::Object(ms) => {
            let mut out: Vec<(String, Vec<ModifierEntry>)> = Vec::new();
            let mut i: usize = 0;
            while i < ms.len()
                invariant
                    i <= ms.len(),
                    out.len() == i,
                    v@ == JsonModel::Object(object_view(ms@)),
                    forall|j: int|
                        0 <= j < i ==> (#[trigger] out@[j]).0@ == object_view(ms@)[j].0
                            && is_modifier_list(out@[j].1@, object_view(ms@)[j].1),
                decreases ms.len() - i,
            {
                match modifier_list_of(&ms[i].1) {
                    Some(list) => {
                        out.push((copy_text(ms[i].0.as_str()), list));
                    },
                    None => {
                        proof {
                            let members = v@->Object_0;
                            assert(members[i as int].1 == ms@[i as int].1@);
                            assert(!modifier_list_readable(members[i as int].1));
                        }
                        return Vec::new();
                    },
                }
                i += 1;
            }
            assert forall|j: int| 0 <= j < ms.len() implies modifier_list_readable(
                (#[trigger] object_view(ms@)[j]).1,
            ) by {
                let list = out@[j].1@;
                let items = object_view(ms@)[j].1->Array_0;
                assert forall|k: int| 0 <= k < items.len() implies modifier_readable(
                    #[trigger] items[k],
                ) by {
                    assert(is_modifier(list[k], items[k]));
                }
            }
            out
        },
        _ => Vec::new(),
    }
}

/// The members of the first `n` that are sorted with `field` and can be read as
/// entries, in their order.
pub open spec fn entry_members(
    ms: Members,
    n: int,
    field: SheetField,
    ability_keys: Seq<Seq<char>>,
    skill_keys: Seq<Seq<char>>,
) -> Members
    decreases n,
{
    if n <= 0 || n > ms.len() {
        Seq::empty()
    } else if spec_classify(ms[n - 1].0, ability_keys, skill_keys) == field
        && skill_entry_readable(ms[n - 1].1) {
        entry_members(ms, n - 1, field, ability_keys, skill_keys).push(ms[n - 1])
    } else {
        entry_members(ms, n - 1, field, ability_keys, skill_keys)
    }
}

/// `entries` are what `from` holds, entry by entry.
pub open spec fn are_entries(entries: Seq<(String, SkillEntry)>, from: Members) -> bool {
    &&& entries.len() == from.len()
    &&& forall|i: int|
        0 <= i < from.len() ==> (#[trigger] entries[i]).0@ == from[i].0 && is_skill_entry(
            entries[i].1,
            from[i].1,
        )
}

/// The member under `key`, where the key is sorted with `field`.
pub open spec fn named_member(
    ms: Members,
    key: Seq<char>,
    field: SheetField,
    ability_keys: Seq<Seq<char>>,
    skill_keys: Seq<Seq<char>>,
) -> Option<JsonModel> {
    if spec_classify(key, ability_keys, skill_keys) == field {
        lookup(ms, key)
    } else {
        None
    }
}

/// The texts of the list under `key`: none where the key is sorted otherwise,
/// is missing, or holds no list of texts.
pub open spec fn named_texts(
    ms: Members,
    key: Seq<char>,
    field: SheetField,
    ability_keys: Seq<Seq<char>>,
    skill_keys: Seq<Seq<char>>,
) -> Seq<Seq<char>> {
    match named_member(ms, key, field, ability_keys, skill_keys) {
        Some(v) => match spec_text_list(v) {
            Some(ts) => ts,
            None => Seq::empty(),
        },
        None => Seq::empty(),
    }
}

/// The member under `key`, where the key is sorted with `field`.
fn named<'a>(
    ms: &'a Vec<(String, JsonValue)>,
    key: &str,
    field: SheetField,
    ability_keys: &Vec<String>,
    skill_keys: &Vec<String>,
) -> (r: Option<&'a JsonValue>)
    ensures
        match named_member(
            object_view(ms@),
            key@,
            field,
            texts_view(ability_keys@),
            texts_view(skill_keys@),
        ) {
            Some(v) => r matches Some(x) && x@ == v,
            None => r is None,
        },
{
    if classify_key(key, ability_keys, skill_keys) == field {
        match find_member(ms, key) {
            Some(i) => Some(&ms[i].1),
            None => None,
        }
    } else {
        None
    }
}

/// The texts of the list under `key`.
fn named_list(
    ms: &Vec<(String, JsonValue)>,
    key: &str,
    field: SheetField,
    ability_keys: &Vec<String>,
    skill_keys: &Vec<String>,
) -> (r: Vec<String>)
    ensures
        texts_view(r@) == named_texts(
            object_view(ms@),
            key@,
            field,
            texts_view(ability_keys@),
            texts_view(skill_keys@),
        ),
{
    match named(ms, key, field, ability_keys, skill_keys) {
        Some(v) => text_list_or_empty(v),
        None => {
            let list: Vec<String> = Vec::new();
            assert(texts_view(list@) =~= Seq::<Seq<char>>::empty());
            list
        },
    }
}

/// The entries of the members that are sorted with `field`.
fn entries_of(
    ms: &Vec<(String, JsonValue)>,
    field: SheetField,
    ability_keys: &Vec<String>,
    skill_keys: &Vec<String>,
) -> (r: Vec<(String, SkillEntry)>)
    ensures
        are_entries(
            r@,
            entry_members(
                object_view(ms@),
                ms@.len() as int,
                field,
                texts_view(ability_keys@),
                texts_view(skill_keys@),
            ),
        ),
{
    let ghost mv = object_view(ms@);
    let ghost ak = texts_view(ability_keys@);
    let ghost sk = texts_view(skill_keys@);
    let mut out: Vec<(String, SkillEntry)> = Vec::new();
    let mut i: usize = 0;
    while i < ms.len()
        invariant
            i <= ms.len(),
            mv == object_view(ms@),
            ak == texts_view(ability_keys@),
            sk == texts_view(skill_keys@),
            are_entries(out@, entry_members(mv, i as int, field, ak, sk)),
        decreases ms.len() - i,
    {
        if classify_key(ms[i].0.as_str(), ability_keys, skill_keys) == field {
            match skill_entry_of(&ms[i].1) {
                Some(e) => {
                    out.push((copy_text(ms[i].0.as_str()), e));
                },
                None => {},
            }
        }
        i += 1;
    }
    out
}

/// The character sheet that the node `raw` holds, with the catalog's keys of
/// abilities and skills. A node that is no object holds an empty sheet. A
/// member that cannot be read as what its key asks for is left out.
pub fn parse_character_sheet(raw: &JsonValue, key_map: &SkillKeyMap) -> (sheet: CharacterSheet)
    ensures
        match raw@ {
            JsonModel::Object(ms) => {
                let ak = distinct_texts(
                    ability_key_texts(key_map.abilities@),
                    key_map.abilities@.len() as int,
                );
                let sk = distinct_texts(
                    skill_key_texts(key_map.skills@),
                    key_map.skills@.len() as int,
                );
                &&& are_entries(
                    sheet.abilities@,
                    entry_members(ms, ms.len() as int, SheetField::Ability, ak, sk),
                )
                &&& are_entries(
                    sheet.skills@,
                    entry_members(ms, ms.len() as int, SheetField::Skill, ak, sk),
                )
                &&& texts_view(sheet.gained_items@) == named_texts(
                    ms,
                    "gainedItems"@,
                    SheetField::GainedItems,
                    ak,
                    sk,
                )
                &&& texts_view(sheet.equipped_items@) == named_texts(
                    ms,
                    "equippedItems"@,
                    SheetField::EquippedItems,
                    ak,
                    sk,
                )
                &&& texts_view(sheet.gained_thoughts@) == named_texts(
                    ms,
                    "gainedThoughts"@,
                    SheetField::GainedThoughts,
                    ak,
                    sk,
                )
                &&& texts_view(sheet.cooking_thoughts@) == named_texts(
                    ms,
                    "cookingThoughts"@,
                    SheetField::CookingThoughts,
                    ak,
                    sk,
                )
                &&& texts_view(sheet.fixed_thoughts@) == named_texts(
                    ms,
                    "fixedThoughts"@,
                    SheetField::FixedThoughts,
                    ak,
                    sk,
                )
                &&& texts_view(sheet.forgotten_thoughts@) == named_texts(
                    ms,
                    "forgottenThoughts"@,
                    SheetField::ForgottenThoughts,
                    ak,
                    sk,
                )
                &&& sheet.selected_panel_name@ == (match named_member(
                    ms,
                    "selectedPanelName"@,
                    SheetField::SelectedPanelName,
                    ak,
                    sk,
                ) {
                    Some(JsonModel::Text(t)) => t,
                    _ => Seq::empty(),
                })
                &&& match named_member(
                    ms,
                    "SkillModifierCauseMap"@,
                    SheetField::SkillModifierCauseMap,
                    ak,
                    sk,
                ) {
                    Some(v) => if modifier_map_readable(v) {
                        is_modifier_map(sheet.skill_modifier_cause_map@, v)
                    } else {
                        sheet.skill_modifier_cause_map@.len() == 0
                    },
                    None => sheet.skill_modifier_cause_map@.len() == 0,
                }
                &&& match named_member(
                    ms,
                    "AbilityModifierCauseMap"@,
                    SheetField::AbilityModifierCauseMap,
                    ak,
                    sk,
                ) {
                    Some(v) => if modifier_map_readable(v) {
                        is_modifier_map(sheet.ability_modifier_cause_map@, v)
                    } else {
                        sheet.ability_modifier_cause_map@.len() == 0
                    },
                    None => sheet.ability_modifier_cause_map@.len() == 0,
                }
            },
            _ => {
                &&& sheet.abilities@.len() == 0
                &&& sheet.skills@.len() == 0
                &&& sheet.gained_items@.len() == 0
                &&& sheet.equipped_items@.len() == 0
                &&& sheet.gained_thoughts@.len() == 0
                &&& sheet.cooking_thoughts@.len() == 0
                &&& sheet.fixed_thoughts@.len() == 0
                &&& sheet.forgotten_thoughts@.len() == 0
                &&& sheet.selected_panel_name@.len() == 0
                &&& sheet.skill_modifier_cause_map@.len() == 0
                &&& sheet.ability_modifier_cause_map@.len() == 0
            },
        },
{
    match raw {
        JsonValue::Object(ms) => {
            let ak = key_map.ability_keys();
            let sk = key_map.skill_keys();
            let selected_panel_name = match named(
                ms,
                "selectedPanelName",
                SheetField::SelectedPanelName,
                &ak,
                &sk,
            ) {
                Some(JsonValue::String(s)) => copy_text(s.as_str()),
                _ => String::new(),
            };
            let skill_modifier_cause_map = match named(
                ms,
                "SkillModifierCauseMap",
                SheetField::SkillModifierCauseMap,
                &ak,
                &sk,
            ) {
                Some(v) => modifier_map_of(v),
                None => Vec::new(),
            };
            let ability_modifier_cause_map = match named(
                ms,
                "AbilityModifierCauseMap",
                SheetField::AbilityModifierCauseMap,
                &ak,
                &sk,
            ) {
                Some(v) => modifier_map_of(v),
                None => Vec::new(),
            };
            CharacterSheet {
                abilities: entries_of(ms, SheetField::Ability, &ak, &sk),
                skills: entries_of(ms, SheetField::Skill, &ak, &sk),
                gained_items: named_list(ms, "gainedItems", SheetField::GainedItems, &ak, &sk),
                equipped_items: named_list(
                    ms,
                    "equippedItems",
                    SheetField::EquippedItems,
                    &ak,
                    &sk,
                ),
                gained_thoughts: named_list(
                    ms,
                    "gainedThoughts",
                    SheetField::GainedThoughts,
                    &ak,
                    &sk,
                ),
                cooking_thoughts: named_list(
                    ms,
                    "cookingThoughts",
                    SheetField::CookingThoughts,
                    &ak,
                    &sk,
                ),
                fixed_thoughts: named_list(
                    ms,
                    "fixedThoughts",
                    SheetField::FixedThoughts,
                    &ak,
                    &sk,
                ),
                forgotten_thoughts: named_list(
                    ms,
                    "forgottenThoughts",
                    SheetField::ForgottenThoughts,
                    &ak,
                    &sk,
                ),
                selected_panel_name,
                skill_modifier_cause_map,
                ability_modifier_cause_map,
            }
        },
        _ => CharacterSheet::default(),
    }
}

} // verus!
