use disco_save::display::{acquired_time, modifier_count, slot_of, task_is_new, task_is_resolved};
use disco_save::json::{json_int, JsonValue};
use disco_save::sheet::ModifierEntry;

fn modifier(kind: &str) -> ModifierEntry {
    ModifierEntry { modifier_type: kind.to_string(), ..Default::default() }
}

#[test]
fn calculated_modifiers_are_not_counted() {
    let mods = vec![
        modifier("INVENTORY_ITEM"),
        modifier("CALCULATED_ABILITY"),
        modifier(""),
        modifier("calculated_ability"),
    ];
    assert_eq!(modifier_count(&mods), 3);
    assert_eq!(modifier_count(&Vec::new()), 0);
}

#[test]
fn slot_is_the_first_that_holds_the_item() {
    let equipment = vec![
        ("hat".to_string(), "cap".to_string()),
        ("neck".to_string(), "tie".to_string()),
        ("scarf".to_string(), "tie".to_string()),
    ];
    assert_eq!(slot_of(&equipment, "tie"), "neck");
    assert_eq!(slot_of(&equipment, "cap"), "hat");
    assert_eq!(slot_of(&equipment, "boots"), "");
}

#[test]
fn task_is_new_only_with_a_false_flag() {
    let flags = vec![("a".to_string(), false), ("b".to_string(), true)];
    assert!(task_is_new(&flags, "a"));
    assert!(!task_is_new(&flags, "b"));
    assert!(!task_is_new(&flags, "c"));
}

#[test]
fn task_is_resolved_by_an_object_with_a_member() {
    assert!(task_is_resolved(&JsonValue::Object(vec![("x".to_string(), JsonValue::Null)])));
    assert!(!task_is_resolved(&JsonValue::Object(Vec::new())));
    assert!(!task_is_resolved(&JsonValue::Array(vec![json_int(1)])));
    assert!(!task_is_resolved(&JsonValue::Null));
}

#[test]
fn acquired_time_pads_hours_and_minutes() {
    assert_eq!(acquired_time(3, 7, 5), format!("Day {}, {:02}:{:02}", 3, 7, 5));
    assert_eq!(acquired_time(3, 7, 5), "Day 3, 07:05");
    assert_eq!(acquired_time(12, 23, 59), "Day 12, 23:59");
    assert_eq!(acquired_time(0, 0, 0), "Day 0, 00:00");
    for (d, h, m) in [(-1i64, -1i64, -12i64), (5, 100, 9), (i64::MIN, i64::MAX, -9)] {
        assert_eq!(acquired_time(d, h, m), format!("Day {}, {:02}:{:02}", d, h, m));
    }
}
