use disco_save::states::{parse_states, serialize_states, StatesData};
use regex::Regex;

fn states(area: &[(&str, i64)], orbs: &[(&str, i64)]) -> StatesData {
    StatesData {
        area_states: area.iter().map(|(k, v)| (k.to_string(), *v)).collect(),
        shown_orbs: orbs.iter().map(|(k, v)| (k.to_string(), *v)).collect(),
    }
}

fn by_regex(content: &str) -> StatesData {
    let area = Regex::new(r#"AreaState\["(.+?)"\]\s*=\s*\{LocationState=(\d+)\}"#).unwrap();
    let orb = Regex::new(r#"ShownOrbs\["(.+?)"\]\s*=\s*\{OrbSeen=(\d+)\}"#).unwrap();
    let mut data = StatesData { area_states: Vec::new(), shown_orbs: Vec::new() };
    for cap in area.captures_iter(content) {
        let key = cap[1].to_string();
        let val: i64 = cap[2].parse().unwrap_or(0);
        match data.area_states.iter_mut().find(|e| e.0 == key) {
            Some(e) => e.1 = val,
            None => data.area_states.push((key, val)),
        }
    }
    for cap in orb.captures_iter(content) {
        let key = cap[1].to_string();
        let val: i64 = cap[2].parse().unwrap_or(0);
        match data.shown_orbs.iter_mut().find(|e| e.0 == key) {
            Some(e) => e.1 = val,
            None => data.shown_orbs.push((key, val)),
        }
    }
    data
}

#[test]
fn serialize_sorts_each_block_by_key() {
    let s = states(&[("whirling", 2), ("church", 10), ("Church", 0)], &[("orb_b", 1), ("orb_a", 0)]);
    assert_eq!(
        serialize_states(&s),
        "AreaState[\"Church\"]={LocationState=0};\n\
         AreaState[\"church\"]={LocationState=10};\n\
         AreaState[\"whirling\"]={LocationState=2};\n\
         ShownOrbs[\"orb_a\"]={OrbSeen=0};\n\
         ShownOrbs[\"orb_b\"]={OrbSeen=1};\n"
    );
}

#[test]
fn serialize_of_nothing_is_empty() {
    assert_eq!(serialize_states(&states(&[], &[])), "");
}

#[test]
fn serialize_writes_large_and_negative_integers() {
    let s = states(&[("a", i64::MAX), ("b", i64::MIN), ("c", -7)], &[]);
    assert_eq!(
        serialize_states(&s),
        "AreaState[\"a\"]={LocationState=9223372036854775807};\n\
         AreaState[\"b\"]={LocationState=-9223372036854775808};\n\
         AreaState[\"c\"]={LocationState=-7};\n"
    );
}

#[test]
fn prefix_sorts_before_the_longer_key() {
    let s = states(&[("ab", 1), ("a", 2), ("é", 3), ("z", 4)], &[]);
    let text = serialize_states(&s);
    let back = parse_states(&text);
    assert_eq!(back.area_states, vec![
        ("a".to_string(), 2),
        ("ab".to_string(), 1),
        ("z".to_string(), 4),
        ("é".to_string(), 3),
    ]);
}

#[test]
fn states_round_trip() {
    let s = states(
        &[("whirling", 2), ("church", 10), ("x\"y", 3), ("a]b", 4), ("AreaState[\"q", 5)],
        &[("orb_b", 1), ("orb_a", 0), ("ShownOrbs[", 6)],
    );
    let back = parse_states(&serialize_states(&s));
    let mut area = s.area_states.clone();
    area.sort();
    let mut orbs = s.shown_orbs.clone();
    orbs.sort();
    assert_eq!(back.area_states, area);
    assert_eq!(back.shown_orbs, orbs);
}

#[test]
fn parse_finds_records_anywhere_in_the_text() {
    let text = "-- header\nAreaState[\"a\"] =\t{LocationState=12}; junk ShownOrbs[\"o\"]\n=\n{OrbSeen=1}\nAreaState[\"b\"]={LocationState=003};";
    let back = parse_states(text);
    assert_eq!(back.area_states, vec![("a".to_string(), 12), ("b".to_string(), 3)]);
    assert_eq!(back.shown_orbs, vec![("o".to_string(), 1)]);
    assert_eq!(back, by_regex(text));
}

#[test]
fn parse_keeps_the_last_of_a_repeated_key() {
    let text = "AreaState[\"a\"]={LocationState=1};\nAreaState[\"b\"]={LocationState=2};\nAreaState[\"a\"]={LocationState=3};\n";
    let back = parse_states(text);
    assert_eq!(back.area_states, vec![("a".to_string(), 3), ("b".to_string(), 2)]);
    assert_eq!(back, by_regex(text));
}

#[test]
fn parse_takes_the_shortest_key() {
    let text = "AreaState[\"a\"]={LocationState=1}\"]={LocationState=2};";
    let back = parse_states(text);
    assert_eq!(back.area_states, vec![("a".to_string(), 1)]);
    assert_eq!(back, by_regex(text));
}

#[test]
fn parse_needs_a_key_of_one_character_and_no_line_feed() {
    let text = "AreaState[\"\"]={LocationState=1};\nAreaState[\"a\nb\"]={LocationState=2};\nAreaState[\"c\"]={LocationState=};\nAreaState[\"d\"]={LocationState=-4};\n";
    let back = parse_states(text);
    assert_eq!(back.area_states, Vec::<(String, i64)>::new());
    assert_eq!(back, by_regex(text));
}

#[test]
fn parse_reads_an_empty_key_together_with_what_follows() {
    let text = "AreaState[\"\"]={LocationState=1};AreaState[\"x\"]={LocationState=2};";
    let back = parse_states(text);
    assert_eq!(
        back.area_states,
        vec![("\"]={LocationState=1};AreaState[\"x".to_string(), 2)]
    );
    assert_eq!(back, by_regex(text));
}

#[test]
fn digits_too_large_for_the_integer_read_as_zero() {
    let text = "AreaState[\"a\"]={LocationState=9223372036854775807};AreaState[\"b\"]={LocationState=9223372036854775808};AreaState[\"c\"]={LocationState=99999999999999999999999};";
    let back = parse_states(text);
    assert_eq!(
        back.area_states,
        vec![
            ("a".to_string(), i64::MAX),
            ("b".to_string(), 0),
            ("c".to_string(), 0),
        ]
    );
    assert_eq!(back, by_regex(text));
}

#[test]
fn wide_white_space_is_white_space() {
    let text = "ShownOrbs[\"o\"]\u{3000}=\u{00A0}\u{2003}{OrbSeen=5}";
    let back = parse_states(text);
    assert_eq!(back.shown_orbs, vec![("o".to_string(), 5)]);
    assert_eq!(back, by_regex(text));
}

#[test]
fn parse_agrees_with_the_pattern_on_plain_samples() {
    let samples = [
        "",
        "AreaState",
        "AreaState[\"a\"]={LocationState=1}",
        "AreaState[\"a\"]={LocationState=1",
        "AreaState[\"a\"]={OrbSeen=1}",
        "ShownOrbs[\"AreaState[\"k\"]={LocationState=9}\"]={OrbSeen=1};",
        "AreaState[\"ShownOrbs[\"z\"]={LocationState=1};\nShownOrbs[\"z\"]={OrbSeen=2};",
        "xAreaState[\"a\"]  =  {LocationState=10}AreaState[\"b\"]={LocationState=11}",
        "AreaState[\"a\"]={LocationState=1}\nAreaState[\"b\"]\n=\n{LocationState=2}",
        "AreaState[\"é✓\"]={LocationState=42};",
        "AreaState[\"a\"] = {LocationState= 1}",
        "AreaState[\"a\"]={ LocationState=1}",
        "AreaState[\"AreaState[\"a\"]={LocationState=1}",
    ];
    for sample in samples {
        assert_eq!(parse_states(sample), by_regex(sample), "sample: {:?}", sample);
    }
}

#[test]
fn negative_value_is_lost_when_read_back() {
    let s = states(&[("a", -1), ("b", 2)], &[]);
    let back = parse_states(&serialize_states(&s));
    assert_eq!(back.area_states, vec![("b".to_string(), 2)]);
}
