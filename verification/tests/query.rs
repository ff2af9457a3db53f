use disco_save::query::{matching_variables, text_contains};
use disco_save::value::LuaValue;

fn flat(keys: &[&str]) -> Vec<(String, LuaValue)> {
    keys.iter().map(|k| (k.to_string(), LuaValue::Boolean(true))).collect()
}

#[test]
fn part_is_found_anywhere_in_the_whole() {
    assert!(text_contains("reputation.kim", "kim"));
    assert!(text_contains("reputation.kim", "rep"));
    assert!(text_contains("reputation.kim", "n.k"));
    assert!(text_contains("reputation.kim", ""));
    assert!(text_contains("", ""));
    assert!(text_contains("é✓", "✓"));
    assert!(!text_contains("reputation.kim", "Kim"));
    assert!(!text_contains("kim", "kimm"));
    assert!(!text_contains("", "a"));
    assert!(!text_contains("abab", "bb"));
}

#[test]
fn query_is_matched_without_regard_to_case() {
    let vars = flat(&["Reputation.Kim", "money", "KIMBALL", "akimbo", "other", "ÉCOLE.kim"]);
    assert_eq!(matching_variables(&vars, "kim", 10), vec![0, 2, 3, 5]);
    assert_eq!(matching_variables(&vars, "KIM", 10), vec![0, 2, 3, 5]);
    assert_eq!(matching_variables(&vars, "école", 10), vec![5]);
    assert_eq!(matching_variables(&vars, "none", 10), Vec::<usize>::new());
}

#[test]
fn no_more_variables_are_shown_than_the_limit() {
    let vars = flat(&["a1", "b", "a2", "a3"]);
    assert_eq!(matching_variables(&vars, "a", 2), vec![0, 2]);
    assert_eq!(matching_variables(&vars, "a", 0), Vec::<usize>::new());
    assert_eq!(matching_variables(&vars, "", 3), vec![0, 1, 2]);
    assert_eq!(matching_variables(&vars, "", 9), vec![0, 1, 2, 3]);
    assert_eq!(matching_variables(&Vec::new(), "", 9), Vec::<usize>::new());
}
