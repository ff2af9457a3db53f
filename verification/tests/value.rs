use disco_save::text::{chars_of, copy_text, same_text, string_of, text_before};
use disco_save::value::{bool_word, find_key, table_insert, LuaValue};

#[test]
fn accessors_give_what_the_value_holds() {
    let s = LuaValue::String("x".to_string());
    let n = LuaValue::Number(2.5f64.to_bits());
    let b = LuaValue::Boolean(true);
    let t = LuaValue::Table(vec![("k".to_string(), LuaValue::Boolean(false))]);
    assert_eq!(s.as_str(), Some("x"));
    assert_eq!(n.as_str(), None);
    assert_eq!(n.as_f64().map(f64::from_bits), Some(2.5));
    assert_eq!(s.as_f64(), None);
    assert_eq!(b.as_bool(), Some(true));
    assert_eq!(t.as_bool(), None);
    assert_eq!(t.as_table().map(|x| x.len()), Some(1));
    assert_eq!(b.as_table(), None);
    assert_eq!(s.kind_name(), "String");
    assert_eq!(n.kind_name(), "Number");
    assert_eq!(b.kind_name(), "Boolean");
    assert_eq!(t.kind_name(), "Table");
    assert_eq!(LuaValue::default(), LuaValue::String(String::new()));
}

#[test]
fn display_shows_each_kind() {
    let n = LuaValue::Number(2.5f64.to_bits());
    assert_eq!(LuaValue::String("x".to_string()).to_display_string("unused"), "x");
    assert_eq!(n.to_display_string(&2.5f64.to_string()), "2.5");
    assert_eq!(LuaValue::Boolean(true).to_display_string(""), "true");
    assert_eq!(LuaValue::Boolean(false).to_display_string(""), "false");
    assert_eq!(LuaValue::Table(Vec::new()).to_display_string(""), "[Table]");
    assert_eq!(bool_word(true), "true");
}

#[test]
fn duplicate_copies_the_whole_value() {
    let t = LuaValue::Table(vec![
        ("a".to_string(), LuaValue::Table(vec![("b".to_string(), LuaValue::Number(7))])),
        ("c".to_string(), LuaValue::String("é".to_string())),
    ]);
    assert_eq!(t.duplicate(), t);
}

#[test]
fn insert_replaces_in_place_or_appends() {
    let mut t = vec![("a".to_string(), LuaValue::Number(1)), ("b".to_string(), LuaValue::Number(2))];
    table_insert(&mut t, "a".to_string(), LuaValue::Boolean(true));
    table_insert(&mut t, "c".to_string(), LuaValue::Number(3));
    assert_eq!(
        t,
        vec![
            ("a".to_string(), LuaValue::Boolean(true)),
            ("b".to_string(), LuaValue::Number(2)),
            ("c".to_string(), LuaValue::Number(3)),
        ]
    );
    assert_eq!(find_key(&t, "b"), Some(1));
    assert_eq!(find_key(&t, "B"), None);
}

#[test]
fn text_helpers_agree_with_the_strings() {
    assert_eq!(chars_of("aé✓"), vec!['a', 'é', '✓']);
    assert_eq!(string_of(&vec!['a', 'é', '✓', 'z'], 1, 3), "é✓");
    assert_eq!(copy_text("héllo"), "héllo");
    assert!(same_text("é", "é"));
    assert!(!same_text("e", "é"));
    assert!(!same_text("a", "ab"));
    let words = ["", "a", "ab", "b", "B", "é", "z", "✓", "aa"];
    for x in words {
        for y in words {
            assert_eq!(text_before(x, y), x < y, "{:?} {:?}", x, y);
        }
    }
}
