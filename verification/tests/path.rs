use disco_save::path::{flatten_lua, set_lua_value, split_path};
use disco_save::value::LuaValue;

fn num(x: f64) -> LuaValue {
    LuaValue::Number(x.to_bits())
}

#[test]
fn split_path_cuts_at_every_dot() {
    assert_eq!(split_path("a.b.c"), vec!["a", "b", "c"]);
    assert_eq!(split_path("abc"), vec!["abc"]);
    assert_eq!(split_path(""), vec![""]);
    assert_eq!(split_path("a..b."), vec!["a", "", "b", ""]);
}

#[test]
fn flatten_joins_keys_with_dots() {
    let db = vec![
        ("a".to_string(), num(1.0)),
        (
            "t".to_string(),
            LuaValue::Table(vec![
                ("x".to_string(), LuaValue::Boolean(true)),
                (
                    "u".to_string(),
                    LuaValue::Table(vec![("y".to_string(), LuaValue::String("z".to_string()))]),
                ),
                ("none".to_string(), LuaValue::Table(Vec::new())),
            ]),
        ),
    ];
    let flat = flatten_lua(&db, "");
    assert_eq!(
        flat,
        vec![
            ("a".to_string(), num(1.0)),
            ("t.x".to_string(), LuaValue::Boolean(true)),
            ("t.u.y".to_string(), LuaValue::String("z".to_string())),
        ]
    );
    let under = flatten_lua(&db, "root");
    assert_eq!(under[0].0, "root.a");
    assert_eq!(under[2].0, "root.t.u.y");
}

#[test]
fn set_creates_the_tables_on_the_way() {
    let mut db = Vec::new();
    set_lua_value(&mut db, "reputation.kim", num(3.0));
    assert_eq!(
        db,
        vec![(
            "reputation".to_string(),
            LuaValue::Table(vec![("kim".to_string(), num(3.0))])
        )]
    );
    set_lua_value(&mut db, "reputation.kim", LuaValue::Boolean(false));
    set_lua_value(&mut db, "reputation.cuno", num(1.0));
    assert_eq!(
        db,
        vec![(
            "reputation".to_string(),
            LuaValue::Table(vec![
                ("kim".to_string(), LuaValue::Boolean(false)),
                ("cuno".to_string(), num(1.0)),
            ])
        )]
    );
}

#[test]
fn set_replaces_a_leaf_on_the_way_with_a_table() {
    let mut db = vec![("a".to_string(), num(7.0)), ("b".to_string(), num(8.0))];
    set_lua_value(&mut db, "a.x", LuaValue::Boolean(true));
    assert_eq!(
        db,
        vec![
            (
                "a".to_string(),
                LuaValue::Table(vec![("x".to_string(), LuaValue::Boolean(true))])
            ),
            ("b".to_string(), num(8.0)),
        ]
    );
}

#[test]
fn flatten_recovers_what_was_set() {
    let sets = vec![
        ("a.b.c", num(1.0)),
        ("a.b.d", LuaValue::Boolean(true)),
        ("a.e", LuaValue::String("s".to_string())),
        ("f", num(2.0)),
        ("g..h", num(3.0)),
        ("", num(4.0)),
        ("a.b.c", num(5.0)),
    ];
    let mut db = Vec::new();
    for (path, value) in &sets {
        set_lua_value(&mut db, path, value.duplicate());
    }
    let mut flat = flatten_lua(&db, "");
    flat.sort_by(|x, y| x.0.cmp(&y.0));
    assert_eq!(
        flat,
        vec![
            ("".to_string(), num(4.0)),
            ("a.b.c".to_string(), num(5.0)),
            ("a.b.d".to_string(), LuaValue::Boolean(true)),
            ("a.e".to_string(), LuaValue::String("s".to_string())),
            ("f".to_string(), num(2.0)),
            ("g..h".to_string(), num(3.0)),
        ]
    );
}

#[test]
fn path_that_begins_with_a_dot_loses_the_dot() {
    let mut db = Vec::new();
    set_lua_value(&mut db, ".b", num(1.0));
    let flat = flatten_lua(&db, "");
    assert_eq!(flat, vec![("b".to_string(), num(1.0))]);
}
