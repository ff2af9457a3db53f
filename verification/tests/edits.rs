use disco_save::edits::{
    apply_lua_edits, apply_reputation, drop_in_table, reputation_of, reset_checks, typed_edit,
    LuaEdit,
};
use disco_save::models::ReputationDisplay;
use disco_save::value::{LuaValue, table_insert};

fn num(x: f64) -> LuaValue {
    LuaValue::Number(x.to_bits())
}

fn edit(key: &str, value: &str) -> LuaEdit {
    LuaEdit {
        key: key.to_string(),
        value: value.to_string(),
        number: value.parse::<f64>().ok().map(|x| x.to_bits()),
    }
}

#[test]
fn edit_keeps_the_kind_of_the_leaf() {
    assert_eq!(typed_edit(&num(1.0), "2.5", Some(2.5f64.to_bits())), num(2.5));
    assert_eq!(typed_edit(&num(1.0), "abc", None), num(0.0));
    assert_eq!(typed_edit(&LuaValue::Boolean(false), "true", None), LuaValue::Boolean(true));
    assert_eq!(typed_edit(&LuaValue::Boolean(true), "True", None), LuaValue::Boolean(false));
    assert_eq!(typed_edit(&LuaValue::Boolean(true), "1", Some(1f64.to_bits())), LuaValue::Boolean(false));
    assert_eq!(
        typed_edit(&LuaValue::String("x".to_string()), "12", Some(12f64.to_bits())),
        LuaValue::String("12".to_string())
    );
}

#[test]
fn edits_reach_existing_leaves_only() {
    let mut db = vec![
        ("money".to_string(), num(500.0)),
        (
            "flags".to_string(),
            LuaValue::Table(vec![
                ("met_kim".to_string(), LuaValue::Boolean(false)),
                ("name".to_string(), LuaValue::String("old".to_string())),
            ]),
        ),
    ];
    let edits = vec![
        edit("money", "700"),
        edit("flags.met_kim", "true"),
        edit("flags.name", "new"),
        edit("flags.absent", "1"),
        edit("flags", "1"),
        edit("money", "oops"),
    ];
    apply_lua_edits(&mut db, &edits);
    assert_eq!(
        db,
        vec![
            ("money".to_string(), num(0.0)),
            (
                "flags".to_string(),
                LuaValue::Table(vec![
                    ("met_kim".to_string(), LuaValue::Boolean(true)),
                    ("name".to_string(), LuaValue::String("new".to_string())),
                ]),
            ),
        ]
    );
}

#[test]
fn reputation_stands_under_five_paths() {
    let mut db = vec![("reputation".to_string(), LuaValue::Boolean(true))];
    let rep = ReputationDisplay {
        communist: 1.0f64.to_bits(),
        ultraliberal: 2.0f64.to_bits(),
        moralist: 3.0f64.to_bits(),
        nationalist: 4.0f64.to_bits(),
        kim: 5.0f64.to_bits(),
    };
    apply_reputation(&mut db, &rep);
    assert_eq!(
        db,
        vec![(
            "reputation".to_string(),
            LuaValue::Table(vec![
                ("communist".to_string(), num(1.0)),
                ("ultraliberal".to_string(), num(2.0)),
                ("moralist".to_string(), num(3.0)),
                ("revacholian_nationhood".to_string(), num(4.0)),
                ("kim".to_string(), num(5.0)),
            ])
        )]
    );
    assert_eq!(reputation_of(&db), rep);
    let mut other = Vec::new();
    table_insert(&mut other, "reputation.kim".to_string(), num(9.0));
    assert_eq!(reputation_of(&other).kim, 9.0f64.to_bits());
    assert_eq!(reputation_of(&other).communist, 0);
}

#[test]
fn reset_checks_are_deleted_from_the_database() {
    let check = |n: f64| LuaValue::Number(n.to_bits());
    let mut db = vec![
        ("money".to_string(), check(1.0)),
        (
            "failedWhiteChecksHolder".to_string(),
            LuaValue::Table(vec![
                ("other".to_string(), LuaValue::Boolean(true)),
                (
                    "WhiteCheckCache".to_string(),
                    LuaValue::Table(vec![
                        ("a".to_string(), check(1.0)),
                        ("b".to_string(), check(2.0)),
                        ("c".to_string(), check(3.0)),
                    ]),
                ),
                (
                    "SeenWhiteCheckCache".to_string(),
                    LuaValue::Table(vec![
                        ("b".to_string(), check(4.0)),
                        ("s".to_string(), check(5.0)),
                    ]),
                ),
            ]),
        ),
        ("b".to_string(), check(6.0)),
    ];
    reset_checks(
        &mut db,
        &vec!["b".to_string(), "zz".to_string(), "a".to_string()],
        &vec!["s".to_string()],
    );
    assert_eq!(
        db,
        vec![
            ("money".to_string(), check(1.0)),
            (
                "failedWhiteChecksHolder".to_string(),
                LuaValue::Table(vec![
                    ("other".to_string(), LuaValue::Boolean(true)),
                    ("WhiteCheckCache".to_string(), LuaValue::Table(vec![("c".to_string(), check(3.0))])),
                    ("SeenWhiteCheckCache".to_string(), LuaValue::Table(vec![("b".to_string(), check(4.0))])),
                ]),
            ),
            ("b".to_string(), check(6.0)),
        ]
    );
    let before = vec![
        ("t".to_string(), check(1.0)),
        ("u".to_string(), LuaValue::Table(vec![("k".to_string(), check(2.0))])),
    ];
    let mut same = vec![
        ("t".to_string(), check(1.0)),
        ("u".to_string(), LuaValue::Table(vec![("k".to_string(), check(2.0))])),
    ];
    drop_in_table(&mut same, "t", &vec!["k".to_string()]);
    drop_in_table(&mut same, "missing", &vec!["k".to_string()]);
    drop_in_table(&mut same, "u.k", &vec!["k".to_string()]);
    reset_checks(&mut same, &vec!["t".to_string()], &vec!["u".to_string()]);
    assert_eq!(same, before);
    drop_in_table(&mut same, "u", &vec!["k".to_string(), "k".to_string()]);
    assert_eq!(
        same,
        vec![("t".to_string(), check(1.0)), ("u".to_string(), LuaValue::Table(Vec::new()))]
    );
}
