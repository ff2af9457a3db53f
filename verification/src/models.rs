//! The typed fields of a save as the editor shows and edits them.

use vstd::prelude::*;
use crate::text::same_text;

verus! {

/// Who travels with the player, and where the companions wait.
#[derive(Debug, Clone, PartialEq, Default)]
pub struct PartyState {
    pub is_kim_in_party: bool,
    pub is_kim_left_outside: bool,
    pub is_kim_abandoned: bool,
    pub is_kim_away_up_to_morning: bool,
    pub is_kim_sleeping_in_his_room: bool,
    pub is_kim_saying_good_morning: bool,
    pub is_cuno_in_party: bool,
    pub is_cuno_left_outside: bool,
    pub is_cuno_abandoned: bool,
    pub has_hangover: bool,
    pub sleep_location: i64,
    pub wait_location: i64,
    pub cuno_wait_location: i64,
    pub time_since_kim_went_sleeping: i64,
    pub kim_last_arrival_location: i64,
    pub cuno_last_arrival_location: i64,
}

/// The flags of the portrait and of the notifications.
#[derive(Debug, Clone, PartialEq, Default)]
pub struct HudStateDisplay {
    pub portrait_obscured: bool,
    pub portrait_shaved: bool,
    pub portrait_expression_stopped: bool,
    pub portrait_fascist: bool,
    pub charsheet_notification: bool,
    pub inventory_notification: bool,
    pub journal_notification: bool,
    pub thc_notification: bool,
    pub inv_clothes_notification: bool,
    pub inv_pawnables_notification: bool,
    pub inv_reading_notification: bool,
    pub inv_tools_notification: bool,
}

/// Which places were visited or found.
#[derive(Debug, Clone, PartialEq, Default)]
pub struct LocationFlags {
    pub was_church_visited: bool,
    pub was_fishing_village_visited: bool,
    pub was_quicktravel_church_discovered: bool,
    pub was_quicktravel_fishing_village_discovered: bool,
}

/// The five reputations, each as the bits of a double.
#[derive(Debug, Clone, PartialEq, Default)]
pub struct ReputationDisplay {
    pub communist: u64,
    pub ultraliberal: u64,
    pub moralist: u64,
    pub nationalist: u64,
    pub kim: u64,
}

/// One ability as the editor shows it.
#[derive(Debug, Clone, PartialEq, Default)]
pub struct AbilityDisplay {
    pub save_key: String,
    pub display_name: String,
    pub type_code: String,
    pub value: i64,
    pub maximum_value: i64,
    pub is_signature: bool,
}

/// One skill as the editor shows it.
#[derive(Debug, Clone, PartialEq, Default)]
pub struct SkillDisplay {
    pub save_key: String,
    pub display_name: String,
    pub type_code: String,
    pub ability_type: String,
    pub description: String,
    pub value: i64,
    pub maximum_value: i64,
    pub calculated_ability: i64,
    pub rank_value: i64,
    pub has_advancement: bool,
    pub is_signature: bool,
    pub modifier_count: usize,
}

/// One item of the inventory as the editor shows it.
#[derive(Debug, Clone, PartialEq, Default)]
pub struct InventoryItemDisplay {
    pub name: String,
    pub display_name: String,
    pub description: String,
    pub bonus: String,
    pub is_owned: bool,
    pub is_equipped: bool,
    pub equip_slot: String,
    pub is_quest_item: bool,
    pub is_cursed: bool,
    pub is_substance: bool,
    pub substance_uses: i64,
}

/// One thought as the editor shows it. The two times are the bits of doubles.
#[derive(Debug, Clone, PartialEq, Default)]
pub struct ThoughtDisplay {
    pub name: String,
    pub display_name: String,
    pub description: String,
    pub bonus_while_processing: String,
    pub bonus_when_completed: String,
    pub completion_description: String,
    pub thought_type: String,
    pub time_to_internalize: u64,
    pub requirement: String,
    pub is_cursed: bool,
    pub state: String,
    pub time_left: u64,
}

/// How an ability's key in the save maps to its type and name.
#[derive(Debug, Clone, PartialEq, Default)]
pub struct AbilityMapping {
    pub save_key: String,
    pub skill_type: String,
    pub display_name: String,
    pub skills: Vec<String>,
}

/// How a skill's key in the save maps to its type, name and ability.
#[derive(Debug, Clone, PartialEq, Default)]
pub struct SkillMapping {
    pub save_key: String,
    pub skill_type: String,
    pub display_name: String,
    pub ability: String,
}

/// The catalog of the keys under which a save holds abilities and skills.
#[derive(Debug, Clone, PartialEq, Default)]
pub struct SkillKeyMap {
    pub abilities: Vec<AbilityMapping>,
    pub skills: Vec<SkillMapping>,
    pub equipment_slots: Vec<String>,
    pub inventory_categories: Vec<String>,
    pub modifier_cause_types: Vec<String>,
    pub thought_states: Vec<String>,
    pub healing_pool_types: Vec<String>,
}

/// The save keys of the abilities, in their order.
pub open spec fn ability_key_texts(abilities: Seq<AbilityMapping>) -> Seq<Seq<char>> {
    Seq::new(abilities.len(), |i: int| abilities[i].save_key@)
}

/// The save keys of the skills, in their order.
pub open spec fn skill_key_texts(skills: Seq<SkillMapping>) -> Seq<Seq<char>> {
    Seq::new(skills.len(), |i: int| skills[i].save_key@)
}

/// The skill types of the skills, in their order.
pub open spec fn skill_type_texts(skills: Seq<SkillMapping>) -> Seq<Seq<char>> {
    Seq::new(skills.len(), |i: int| skills[i].skill_type@)
}

/// The first index at which `key` stands in `texts`, if it stands there.
pub open spec fn first_index(texts: Seq<Seq<char>>, key: Seq<char>) -> Option<int>
    decreases texts.len(),
{
    if texts.len() == 0 {
        None
    } else if texts[0] == key {
        Some(0)
    } else {
        match first_index(texts.drop_first(), key) {
            Some(i) => Some(i + 1),
            None => None,
        }
    }
}

/// What `first_index` finds: the first place of the text, or that it has none.
pub(crate) proof fn lemma_first_index(texts: Seq<Seq<char>>, key: Seq<char>)
    ensures
        match first_index(texts, key) {
            Some(i) => 0 <= i < texts.len() && texts[i] == key && forall|j: int|
                0 <= j < i ==> #[trigger] texts[j] != key,
            None => forall|j: int| 0 <= j < texts.len() ==> #[trigger] texts[j] != key,
        },
    decreases texts.len(),
{
    if texts.len() > 0 && texts[0] != key {
        lemma_first_index(texts.drop_first(), key);
        assert(forall|j: int|
            0 < j < texts.len() ==> texts.drop_first()[j - 1] == #[trigger] texts[j]);
        match first_index(texts.drop_first(), key) {
            Some(i) => {
                assert forall|j: int| 0 <= j < i + 1 implies #[trigger] texts[j] != key by {
                    if j > 0 {
                        assert(texts.drop_first()[j - 1] != key);
                    }
                }
            },
            None => {
                assert forall|j: int| 0 <= j < texts.len() implies #[trigger] texts[j] != key by {
                    if j > 0 {
                        assert(texts.drop_first()[j - 1] != key);
                    }
                }
            },
        }
    }
}

/// The texts of `texts`, each once, in the order in which they first stand.
pub open spec fn distinct_texts(texts: Seq<Seq<char>>, n: int) -> Seq<Seq<char>>
    decreases n,
{
    if n <= 0 || n > texts.len() {
        Seq::empty()
    } else if distinct_texts(texts, n - 1).contains(texts[n - 1]) {
        distinct_texts(texts, n - 1)
    } else {
        distinct_texts(texts, n - 1).push(texts[n - 1])
    }
}

/// The model of a list of texts.
pub open spec fn texts_view(items: Seq<String>) -> Seq<Seq<char>> {
    Seq::new(items.len(), |i: int| items[i]@)
}

/// Whether `items` holds the text `key`.
pub fn holds_text(items: &Vec<String>, key: &str) -> (r: bool)
    ensures
        r == texts_view(items@).contains(key@),
{
    let mut i: usize = 0;
    while i < items.len()
        invariant
            i <= items.len(),
            forall|j: int| 0 <= j < i ==> texts_view(items@)[j] != key@,
        decreases items.len() - i,
    {
        if same_text(items[i].as_str(), key) {
            assert(texts_view(items@)[i as int] == key@);
            return true;
        }
        i += 1;
    }
    false
}

impl SkillKeyMap {
    /// The save keys of the abilities, each once.
    pub fn ability_keys(&self) -> (r: Vec<String>)
        ensures
            texts_view(r@) == distinct_texts(
                ability_key_texts(self.abilities@),
                self.abilities@.len() as int,
            ),
    {
        let ghost keys = ability_key_texts(self.abilities@);
        let mut out: Vec<String> = Vec::new();
        let mut i: usize = 0;
        assert(texts_view(out@) =~= distinct_texts(keys, 0));
        while i < self.abilities.len()
            invariant
                i <= self.abilities.len(),
                keys == ability_key_texts(self.abilities@),
                texts_view(out@) == distinct_texts(keys, i as int),
            decreases self.abilities.len() - i,
        {
            let key = self.abilities[i].save_key.as_str();
            if !holds_text(&out, key) {
                out.push(crate::text::copy_text(key));
                assert(texts_view(out@) =~= distinct_texts(keys, i + 1));
            }
            i += 1;
        }
        out
    }

    /// The save keys of the skills, each once.
    pub fn skill_keys(&self) -> (r: Vec<String>)
        ensures
            texts_view(r@) == distinct_texts(
                skill_key_texts(self.skills@),
                self.skills@.len() as int,
            ),
    {
        let ghost keys = skill_key_texts(self.skills@);
        let mut out: Vec<String> = Vec::new();
        let mut i: usize = 0;
        assert(texts_view(out@) =~= distinct_texts(keys, 0));
        while i < self.skills.len()
            invariant
                i <= self.skills.len(),
                keys == skill_key_texts(self.skills@),
                texts_view(out@) == distinct_texts(keys, i as int),
            decreases self.skills.len() - i,
        {
            let key = self.skills[i].save_key.as_str();
            if !holds_text(&out, key) {
                out.push(crate::text::copy_text(key));
                assert(texts_view(out@) =~= distinct_texts(keys, i + 1));
            }
            i += 1;
        }
        out
    }

    /// The first skill whose save key is `key`.
    pub fn find_by_save_key(&self, key: &str) -> (r: Option<&SkillMapping>)
        ensures
            match first_index(skill_key_texts(self.skills@), key@) {
                Some(i) => r == Some(&self.skills@[i]),
                None => r is None,
            },
    {
        let ghost keys = skill_key_texts(self.skills@);
        proof {
            lemma_first_index(keys, key@);
        }
        let mut i: usize = 0;
        while i < self.skills.len()
            invariant
                i <= self.skills.len(),
                keys == skill_key_texts(self.skills@),
                forall|j: int| 0 <= j < i ==> #[trigger] keys[j] != key@,
            decreases self.skills.len() - i,
        {
            if same_text(self.skills[i].save_key.as_str(), key) {
                assert(keys[i as int] == key@);
                proof {
                    lemma_first_index(keys, key@);
                }
                return Some(&self.skills[i]);
            }
            i += 1;
        }
        None
    }

    /// The first ability whose save key is `key`.
    pub fn find_ability_by_save_key(&self, key: &str) -> (r: Option<&AbilityMapping>)
        ensures
            match first_index(ability_key_texts(self.abilities@), key@) {
                Some(i) => r == Some(&self.abilities@[i]),
                None => r is None,
            },
    {
        let ghost keys = ability_key_texts(self.abilities@);
        proof {
            lemma_first_index(keys, key@);
        }
        let mut i: usize = 0;
        while i < self.abilities.len()
            invariant
                i <= self.abilities.len(),
                keys == ability_key_texts(self.abilities@),
                forall|j: int| 0 <= j < i ==> #[trigger] keys[j] != key@,
            decreases self.abilities.len() - i,
        {
            if same_text(self.abilities[i].save_key.as_str(), key) {
                assert(keys[i as int] == key@);
                proof {
                    lemma_first_index(keys, key@);
                }
                return Some(&self.abilities[i]);
            }
            i += 1;
        }
        None
    }

    /// The first skill whose skill type is `skill_type`.
    pub fn find_by_skill_type(&self, skill_type: &str) -> (r: Option<&SkillMapping>)
        ensures
            match first_index(skill_type_texts(self.skills@), skill_type@) {
                Some(i) => r == Some(&self.skills@[i]),
                None => r is None,
            },
    {
        let ghost keys = skill_type_texts(self.skills@);
        proof {
            lemma_first_index(keys, skill_type@);
        }
        let mut i: usize = 0;
        while i < self.skills.len()
            invariant
                i <= self.skills.len(),
                keys == skill_type_texts(self.skills@),
                forall|j: int| 0 <= j < i ==> #[trigger] keys[j] != skill_type@,
            decreases self.skills.len() - i,
        {
            if same_text(self.skills[i].skill_type.as_str(), skill_type) {
                assert(keys[i as int] == skill_type@);
                proof {
                    lemma_first_index(keys, skill_type@);
                }
                return Some(&self.skills[i]);
            }
            i += 1;
        }
        None
    }
}

/// A moment of the game's clock.
#[derive(Debug, Clone, PartialEq, Default)]
pub struct GameTimestamp {
    pub day_counter: i64,
    pub real_day_counter: i64,
    pub day_minutes: i64,
    pub seconds: i64,
}

/// The quotient of `a` by the positive `b`, rounded toward zero.
pub open spec fn quotient(a: int, b: int) -> int {
    if a >= 0 {
        a / b
    } else {
        -((-a) / b)
    }
}

/// What is left of `a` after the quotient by the positive `b`: it has the sign
/// of `a`.
pub open spec fn remainder(a: int, b: int) -> int {
    a - b * quotient(a, b)
}

impl GameTimestamp {
    /// The whole hours of the minutes of the day.
    pub fn hours(&self) -> (r: i64)
        ensures
            r == quotient(self.day_minutes as int, 60),
    {
        self.day_minutes / 60
    }

    /// The minutes of the day beyond the whole hours.
    pub fn minutes(&self) -> (r: i64)
        ensures
            r == remainder(self.day_minutes as int, 60),
    {
        self.day_minutes % 60
    }
}

} // verus!
