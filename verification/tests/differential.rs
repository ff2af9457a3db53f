use disco_save::archive::{base_name, display_name, format_system_time, session_name};
use disco_save::codec::{parse_lua_data, serialize_lua_database};
use disco_save::path::{flatten_lua, set_lua_value, split_path};
use disco_save::states::{parse_states, serialize_states, StatesData};
use disco_save::text::text_before;
use disco_save::value::LuaValue;
use regex::Regex;

struct Rng(u64);

impl Rng {
    fn next(&mut self) -> u64 {
        self.0 ^= self.0 << 13;
        self.0 ^= self.0 >> 7;
        self.0 ^= self.0 << 17;
        self.0
    }

    fn below(&mut self, n: usize) -> usize {
        (self.next() % n as u64) as usize
    }

    fn pick<'a>(&mut self, items: &[&'a str]) -> &'a str {
        items[self.below(items.len())]
    }

    fn text(&mut self, tokens: &[&str], max: usize) -> String {
        let n = self.below(max + 1);
        (0..n).map(|_| self.pick(tokens)).collect()
    }
}

fn put(entries: &mut Vec<(String, i64)>, key: String, val: i64) {
    match entries.iter_mut().find(|e| e.0 == key) {
        Some(e) => e.1 = val,
        None => entries.push((key, val)),
    }
}

fn states_by_pattern(content: &str, area: &Regex, orb: &Regex) -> StatesData {
    let mut data = StatesData { area_states: Vec::new(), shown_orbs: Vec::new() };
    for cap in area.captures_iter(content) {
        put(&mut data.area_states, cap[1].to_string(), cap[2].parse().unwrap_or(0));
    }
    for cap in orb.captures_iter(content) {
        put(&mut data.shown_orbs, cap[1].to_string(), cap[2].parse().unwrap_or(0));
    }
    data
}

#[test]
fn states_reader_agrees_with_the_pattern_on_generated_texts() {
    let area = Regex::new(r#"AreaState\["(.+?)"\]\s*=\s*\{LocationState=(\d+)\}"#).unwrap();
    let orb = Regex::new(r#"ShownOrbs\["(.+?)"\]\s*=\s*\{OrbSeen=(\d+)\}"#).unwrap();
    let tokens = [
        "AreaState[\"", "ShownOrbs[\"", "\"]", "=", "{LocationState=", "{OrbSeen=", "}", ";",
        "\n", " ", "\t", "\u{a0}", "\"", "]", "[", "{", "0", "1", "42", "9223372036854775808",
        "a", "b", "key", "é", "AreaState", "LocationState", "-", "\r", "\u{2003}", "x\"]",
    ];
    let mut rng = Rng(0x9E37_79B9_7F4A_7C15);
    for _ in 0..4000 {
        let text = rng.text(&tokens, 24);
        assert_eq!(parse_states(&text), states_by_pattern(&text, &area, &orb), "{:?}", text);
    }
}

#[test]
fn states_written_are_read_back_on_generated_tables() {
    let pieces = ["a", "b", "c", "é", " ", "\"", "]", "[", "=", "{", "}", ";", "AreaState[\"", "1"];
    let mut rng = Rng(0x1234_5678_9ABC_DEF1);
    for _ in 0..500 {
        let mut s = StatesData { area_states: Vec::new(), shown_orbs: Vec::new() };
        for _ in 0..rng.below(6) {
            let key = rng.text(&pieces, 5);
            if !key.is_empty() && !key.contains("\"]") {
                put(&mut s.area_states, key, (rng.next() >> 1) as i64);
            }
        }
        for _ in 0..rng.below(6) {
            let key = rng.text(&pieces, 5);
            if !key.is_empty() && !key.contains("\"]") {
                put(&mut s.shown_orbs, key, (rng.next() % 3) as i64);
            }
        }
        let back = parse_states(&serialize_states(&s));
        let mut area = s.area_states.clone();
        area.sort();
        let mut orbs = s.shown_orbs.clone();
        orbs.sort();
        assert_eq!(back.area_states, area);
        assert_eq!(back.shown_orbs, orbs);
    }
}

#[test]
fn text_order_is_the_order_of_strings() {
    let pieces = ["", "a", "b", "A", "é", "z", "✓", "\u{10FFFF}", "\0", " "];
    let mut rng = Rng(42);
    for _ in 0..3000 {
        let x = rng.text(&pieces, 4);
        let y = rng.text(&pieces, 4);
        assert_eq!(text_before(&x, &y), x < y, "{:?} {:?}", x, y);
    }
}

#[test]
fn names_of_saves_agree_with_the_string_functions() {
    let pieces = [".ntwtf", ".zip", ".ntwtf.zip", "a", ".", "ntwtf", "zip", "é", ".n", "twtf"];
    let mut rng = Rng(7);
    for _ in 0..3000 {
        let name = rng.text(&pieces, 5);
        let expected_base = if name.ends_with(".ntwtf.zip") {
            name[..name.len() - 10].to_string()
        } else if name.ends_with(".ntwtf") {
            name[..name.len() - 6].to_string()
        } else {
            name.clone()
        };
        let expected_session = if name.ends_with(".ntwtf.zip") {
            name[..name.len() - 10].to_string()
        } else if name.ends_with(".zip") {
            name[..name.len() - 4].to_string()
        } else if name.ends_with(".ntwtf") {
            name[..name.len() - 6].to_string()
        } else {
            name.clone()
        };
        assert_eq!(base_name(&name), expected_base, "{:?}", name);
        assert_eq!(session_name(&name), expected_session, "{:?}", name);
        assert_eq!(display_name(&name), name.replace(".ntwtf.zip", "").replace(".ntwtf", ""));
    }
}

#[test]
fn times_agree_with_the_formatter() {
    let mut rng = Rng(99);
    for _ in 0..3000 {
        let secs = rng.next() >> rng.below(60);
        let days = secs / 86400;
        let remaining = secs % 86400;
        let expected = format!("{}-{:02}:{:02}", days, remaining / 3600, (remaining % 3600) / 60);
        assert_eq!(format_system_time(secs), expected);
    }
}

fn value(rng: &mut Rng, depth: usize) -> LuaValue {
    match rng.below(if depth == 0 { 3 } else { 4 }) {
        0 => LuaValue::String(rng.text(&["a", "é", "", "x.y", "\n", "✓"], 3)),
        1 => LuaValue::Number(rng.next()),
        2 => LuaValue::Boolean(rng.below(2) == 1),
        _ => LuaValue::Table(table(rng, depth - 1)),
    }
}

fn table(rng: &mut Rng, depth: usize) -> Vec<(String, LuaValue)> {
    let mut entries: Vec<(String, LuaValue)> = Vec::new();
    for _ in 0..rng.below(5) {
        let key = rng.text(&["a", "b", "é", ".", "k1", ""], 3);
        if entries.iter().all(|e| e.0 != key) {
            let v = value(rng, depth);
            entries.push((key, v));
        }
    }
    entries
}

#[test]
fn generated_databases_are_read_back_as_they_were_written() {
    let mut rng = Rng(2024);
    for _ in 0..500 {
        let db = table(&mut rng, 3);
        let bytes = serialize_lua_database(&db).unwrap();
        assert_eq!(parse_lua_data(&bytes, &Vec::new()).unwrap(), db);
    }
}

#[test]
fn generated_streams_never_stop_the_reader() {
    let mut rng = Rng(31337);
    for _ in 0..2000 {
        let n = rng.below(40);
        let bytes: Vec<u8> = (0..n)
            .map(|_| match rng.below(6) {
                0 => 0x54,
                1 => 0x53,
                2 => 0x42,
                3 => 0,
                4 => 1,
                _ => rng.next() as u8,
            })
            .collect();
        let mut names: Vec<(u64, String)> = Vec::new();
        loop {
            match parse_lua_data(&bytes, &names) {
                Err(disco_save::codec::CodecError::UnnamedNumber(bits)) => {
                    assert!(names.iter().all(|n| n.0 != bits));
                    names.push((bits, f64::from_bits(bits).to_string()));
                }
                Err(e) => {
                    assert_eq!(e, disco_save::codec::CodecError::Unparseable);
                    break;
                }
                Ok(_) => break,
            }
        }
    }
}

#[test]
fn flatten_recovers_generated_sets() {
    let segments = ["a", "b", "c", "d"];
    let mut rng = Rng(555);
    for _ in 0..500 {
        let mut db = Vec::new();
        let mut expected: Vec<(String, LuaValue)> = Vec::new();
        for _ in 0..rng.below(8) {
            let depth = 1 + rng.below(3);
            let path: Vec<&str> = (0..depth).map(|_| rng.pick(&segments)).collect();
            let path = path.join(".");
            let related = expected.iter().any(|(p, _)| {
                p != &path
                    && (p.starts_with(&format!("{}.", path)) || path.starts_with(&format!("{}.", p)))
            });
            if related {
                continue;
            }
            let v = LuaValue::Number(rng.next());
            set_lua_value(&mut db, &path, v.duplicate());
            assert_eq!(split_path(&path).join("."), path);
            match expected.iter_mut().find(|e| e.0 == path) {
                Some(e) => e.1 = v,
                None => expected.push((path, v)),
            }
        }
        let mut flat = flatten_lua(&db, "");
        flat.sort_by(|x, y| x.0.cmp(&y.0));
        expected.sort_by(|x, y| x.0.cmp(&y.0));
        assert_eq!(flat, expected);
    }
}
