//! The small rules by which the editor shows what a save holds.

use vstd::prelude::*;
use crate::json::{JsonModel, JsonValue};
use crate::sheet::ModifierEntry;
use crate::text::{copy_text, digit_char, digit_of, int_text, push_integer, push_text, same_text};
use crate::value::{find_key, key_index, lemma_key_index, lemma_key_index_is};

verus! {

/// The number of those of the first `n` modifiers that were not calculated
/// from an ability.
pub open spec fn counted_modifiers(mods: Seq<ModifierEntry>, n: int) -> nat
    decreases n,
{
    if n <= 0 || n > mods.len() {
        0
    } else if mods[n - 1].modifier_type@ != "CALCULATED_ABILITY"@ {
        counted_modifiers(mods, n - 1) + 1
    } else {
        counted_modifiers(mods, n - 1)
    }
}

/// The number of modifiers that were not calculated from an ability.
pub fn modifier_count(mods: &Vec<ModifierEntry>) -> (r: usize)
    ensures
        r == counted_modifiers(mods@, mods@.len() as int),
{
    let mut count: usize = 0;
    let mut i: usize = 0;
    while i < mods.len()
        invariant
            i <= mods.len(),
            count == counted_modifiers(mods@, i as int),
            count <= i,
        decreases mods.len() - i,
    {
        if !same_text(mods[i].modifier_type.as_str(), "CALCULATED_ABILITY") {
            count += 1;
        }
        i += 1;
    }
    count
}

/// The first index at which `item` stands as a value of `equipment`, if it
/// stands there.
pub open spec fn worn_index(equipment: Seq<(String, String)>, item: Seq<char>, from: int) -> Option<
    int,
>
    decreases equipment.len() - from,
{
    if from < 0 || from >= equipment.len() {
        None
    } else if equipment[from].1@ == item {
        Some(from)
    } else {
        worn_index(equipment, item, from + 1)
    }
}

/// The slot in which an item is worn: the key of the first entry of the
/// equipment that holds the item, or the empty text where none does.
pub fn slot_of(equipment: &Vec<(String, String)>, item: &str) -> (r: String)
    ensures
        r@ == (match worn_index(equipment@, item@, 0) {
            Some(i) => equipment@[i].0@,
            None => Seq::empty(),
        }),
{
    let mut i: usize = 0;
    while i < equipment.len()
        invariant
            i <= equipment.len(),
            worn_index(equipment@, item@, 0) == worn_index(equipment@, item@, i as int),
        decreases equipment.len() - i,
    {
        if same_text(equipment[i].1.as_str(), item) {
            return copy_text(equipment[i].0.as_str());
        }
        i += 1;
    }
    String::new()
}

/// The keys of the flags of the tasks.
pub open spec fn flags_view(flags: Seq<(String, bool)>) -> Seq<(Seq<char>, bool)> {
    Seq::new(flags.len(), |i: int| (flags[i].0@, flags[i].1))
}

/// Whether the journal marks a task as new: where it holds the flag `false`
/// for the task. A task without a flag is not new.
pub fn task_is_new(new_states: &Vec<(String, bool)>, task: &str) -> (r: bool)
    ensures
        r == (match key_index(flags_view(new_states@), task@) {
            Some(i) => !new_states@[i].1,
            None => false,
        }),
{
    let found = find_key(new_states, task);
    proof {
        let fv = flags_view(new_states@);
        lemma_key_index(fv, task@);
        match found {
            Some(i) => {
                assert(fv[i as int].0 == task@);
                assert forall|j: int| 0 <= j < i implies (#[trigger] fv[j]).0 != task@ by {
                    assert(new_states@[j].0@ != task@);
                }
                lemma_key_index_is(fv, task@, i as int);
            },
            None => {
                if let Some(i) = key_index(fv, task@) {
                    assert(new_states@[i].0@ != task@);
                }
            },
        }
    }
    match found {
        Some(i) => !new_states[i].1,
        None => false,
    }
}

/// Whether a task is resolved: its resolution is an object with a member.
pub fn task_is_resolved(resolution: &JsonValue) -> (r: bool)
    ensures
        r == (resolution@ matches JsonModel::Object(ms) && ms.len() > 0),
{
    match resolution {
        JsonValue::Object(ms) => {
            assert(crate::json::object_view(ms@).len() == ms@.len());
            ms.len() > 0
        },
        _ => false,
    }
}

/// An integer in at least two characters: a digit from 0 to 9 after a zero,
/// any other integer in its decimal notation.
pub open spec fn two_wide(v: int) -> Seq<char> {
    if 0 <= v < 10 {
        seq!['0', digit_char(v)]
    } else {
        int_text(v)
    }
}

/// The moment at which a task was acquired, as the journal shows it:
/// `Day d, hh:mm`.
pub open spec fn acquired_text(day: int, hours: int, minutes: int) -> Seq<char> {
    "Day "@ + int_text(day) + ", "@ + two_wide(hours) + ":"@ + two_wide(minutes)
}

/// Appends an integer in at least two characters.
fn push_two_wide(out: &mut String, v: i64)
    ensures
        final(out)@ == old(out)@ + two_wide(v as int),
{
    if 0 <= v && v < 10 {
        out.push('0');
        out.push(digit_of(v as u8));
        assert(out@ =~= old(out)@ + two_wide(v as int));
    } else {
        push_integer(out, v);
    }
}

/// The moment at which a task was acquired, as the journal shows it.
pub fn acquired_time(day: i64, hours: i64, minutes: i64) -> (r: String)
    ensures
        r@ == acquired_text(day as int, hours as int, minutes as int),
{
    let mut r = String::new();
    push_text(&mut r, "Day ");
    push_integer(&mut r, day);
    push_text(&mut r, ", ");
    push_two_wide(&mut r, hours);
    push_text(&mut r, ":");
    push_two_wide(&mut r, minutes);
    assert(r@ =~= acquired_text(day as int, hours as int, minutes as int));
    r
}

} // verus!
