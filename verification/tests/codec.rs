use disco_save::codec::{
    parse_lua_data, read_7bit_encoded_int, read_string, read_value, serialize_lua_database,
    write_7bit_encoded_int, write_string, write_value, CodecError,
};
use disco_save::value::LuaValue;

fn no_names() -> Vec<(u64, String)> {
    Vec::new()
}

fn text(s: &str) -> LuaValue {
    LuaValue::String(s.to_string())
}

fn number(x: f64) -> LuaValue {
    LuaValue::Number(x.to_bits())
}

fn sample_db() -> Vec<(String, LuaValue)> {
    vec![
        ("name".to_string(), text("Harry")),
        ("money".to_string(), number(500.0)),
        ("alive".to_string(), LuaValue::Boolean(true)),
        (
            "reputation".to_string(),
            LuaValue::Table(vec![
                ("kim".to_string(), number(-2.5)),
                ("inner".to_string(), LuaValue::Table(vec![("x".to_string(), text("é"))])),
            ]),
        ),
        ("empty".to_string(), LuaValue::Table(Vec::new())),
    ]
}

#[test]
fn empty_stream_is_an_empty_database() {
    let parsed = parse_lua_data(&Vec::new(), &no_names()).unwrap();
    assert!(parsed.is_empty());
}

#[test]
fn boolean_table_has_the_documented_bytes() {
    let db = vec![("flag".to_string(), LuaValue::Boolean(true))];
    let bytes = serialize_lua_database(&db).unwrap();
    assert_eq!(
        bytes,
        vec![0x54, 0, 0, 0, 0, 1, 0, 0, 0, 0x53, 4, b'f', b'l', b'a', b'g', 0x42, 1]
    );
    let back = parse_lua_data(&bytes, &no_names()).unwrap();
    assert_eq!(back, db);
}

#[test]
fn number_is_eight_little_endian_bytes() {
    let mut out = Vec::new();
    write_value(&mut out, &number(1.0)).unwrap();
    assert_eq!(out, vec![0x4E, 0, 0, 0, 0, 0, 0, 0xF0, 0x3F]);
    let (v, next) = read_value(&out, 0, &no_names()).unwrap();
    assert_eq!(v, LuaValue::Number(0x3FF0_0000_0000_0000));
    assert_eq!(next, 9);
}

#[test]
fn not_a_number_passes_through_unchanged() {
    let bits = f64::NAN.to_bits() | 0x1234;
    let mut out = Vec::new();
    write_value(&mut out, &LuaValue::Number(bits)).unwrap();
    let (v, _) = read_value(&out, 0, &no_names()).unwrap();
    assert_eq!(v, LuaValue::Number(bits));
}

#[test]
fn boolean_reads_any_nonzero_byte_as_true() {
    let (v, next) = read_value(&[0x42, 0x07], 0, &no_names()).unwrap();
    assert_eq!(v, LuaValue::Boolean(true));
    assert_eq!(next, 2);
    let (v, _) = read_value(&[0x42, 0x00], 0, &no_names()).unwrap();
    assert_eq!(v, LuaValue::Boolean(false));
}

#[test]
fn length_of_two_hundred_takes_two_bytes() {
    let mut out = Vec::new();
    write_7bit_encoded_int(&mut out, 200);
    assert_eq!(out, vec![0xC8, 0x01]);
    assert_eq!(read_7bit_encoded_int(&out, 0), Some((200, 2)));
    let mut small = Vec::new();
    write_7bit_encoded_int(&mut small, 127);
    assert_eq!(small, vec![0x7F]);
    let mut big = Vec::new();
    write_7bit_encoded_int(&mut big, 0x7fff_ffff);
    assert_eq!(big, vec![0xFF, 0xFF, 0xFF, 0xFF, 0x07]);
    assert_eq!(read_7bit_encoded_int(&big, 0), Some((0x7fff_ffff, 5)));
}

#[test]
fn length_of_more_than_five_bytes_is_refused() {
    assert_eq!(read_7bit_encoded_int(&[0x80, 0x80, 0x80, 0x80, 0x80, 0x01], 0), None);
    assert_eq!(read_7bit_encoded_int(&[0x80], 0), None);
}

#[test]
fn text_round_trips_with_multibyte_characters() {
    let mut out = Vec::new();
    write_string(&mut out, "héllo ✓").unwrap();
    assert_eq!(out[0] as usize, "héllo ✓".len());
    let (s, next) = read_string(&out, 0).unwrap();
    assert_eq!(s, "héllo ✓");
    assert_eq!(next, out.len());
}

#[test]
fn long_text_round_trips() {
    let long = "ab".repeat(300);
    let mut out = Vec::new();
    write_value(&mut out, &text(&long)).unwrap();
    assert_eq!(&out[..3], &[0x53, 0xD8, 0x04]);
    let (v, next) = read_value(&out, 0, &no_names()).unwrap();
    assert_eq!(v, text(&long));
    assert_eq!(next, out.len());
}

#[test]
fn invalid_utf8_is_malformed() {
    let r = read_value(&[0x53, 2, 0xC3, 0x28], 0, &no_names());
    assert_eq!(r.err(), Some(CodecError::Malformed));
}

#[test]
fn declared_length_beyond_the_buffer_is_malformed() {
    let r = read_value(&[0x53, 5, b'a', b'b'], 0, &no_names());
    assert_eq!(r.err(), Some(CodecError::Malformed));
}

#[test]
fn unknown_tag_and_truncation_are_malformed() {
    assert_eq!(read_value(&[0x58], 0, &no_names()).err(), Some(CodecError::Malformed));
    assert_eq!(read_value(&[0x4E, 1, 2, 3], 0, &no_names()).err(), Some(CodecError::Malformed));
    assert_eq!(read_value(&[0x42], 0, &no_names()).err(), Some(CodecError::Malformed));
    assert_eq!(read_value(&[0x54, 0, 0, 0, 0, 1], 0, &no_names()).err(), Some(CodecError::Malformed));
    assert_eq!(read_value(&[], 0, &no_names()).err(), Some(CodecError::Malformed));
}

#[test]
fn negative_count_is_malformed() {
    let bytes = vec![0x54, 0, 0, 0, 0, 0xFF, 0xFF, 0xFF, 0xFF];
    assert_eq!(read_value(&bytes, 0, &no_names()).err(), Some(CodecError::Malformed));
}

#[test]
fn huge_count_fails_without_reading_past_the_end() {
    let bytes = vec![0x54, 0, 0, 0, 0, 0xFF, 0xFF, 0xFF, 0x7F, 0x53, 1, b'k'];
    assert_eq!(read_value(&bytes, 0, &no_names()).err(), Some(CodecError::Malformed));
}

#[test]
fn padding_bytes_are_not_checked() {
    let bytes = vec![0x54, 9, 8, 7, 6, 0, 0, 0, 0];
    let (v, next) = read_value(&bytes, 0, &no_names()).unwrap();
    assert_eq!(v, LuaValue::Table(Vec::new()));
    assert_eq!(next, 9);
}

#[test]
fn count_is_four_little_endian_bytes() {
    let mut entries = Vec::new();
    for i in 0..258 {
        entries.push((format!("k{}", i), LuaValue::Boolean(i % 2 == 0)));
    }
    let bytes = serialize_lua_database(&entries).unwrap();
    assert_eq!(&bytes[..9], &[0x54, 0, 0, 0, 0, 0x02, 0x01, 0, 0]);
    let back = parse_lua_data(&bytes, &no_names()).unwrap();
    assert_eq!(back, entries);
}

#[test]
fn nested_database_round_trips() {
    let db = sample_db();
    let bytes = serialize_lua_database(&db).unwrap();
    let back = parse_lua_data(&bytes, &no_names()).unwrap();
    assert_eq!(back, db);
}

#[test]
fn repeated_key_in_a_table_keeps_the_later_value() {
    let mut bytes = vec![0x54, 0, 0, 0, 0, 2, 0, 0, 0];
    bytes.extend_from_slice(&[0x53, 1, b'a', 0x42, 0]);
    bytes.extend_from_slice(&[0x53, 1, b'a', 0x42, 1]);
    let back = parse_lua_data(&bytes, &no_names()).unwrap();
    assert_eq!(back, vec![("a".to_string(), LuaValue::Boolean(true))]);
}

#[test]
fn boolean_and_table_keys_become_text() {
    let mut bytes = vec![0x54, 0, 0, 0, 0, 2, 0, 0, 0];
    bytes.extend_from_slice(&[0x42, 1, 0x42, 0]);
    bytes.extend_from_slice(&[0x54, 0, 0, 0, 0, 0, 0, 0, 0, 0x42, 1]);
    let back = parse_lua_data(&bytes, &no_names()).unwrap();
    assert_eq!(
        back,
        vec![
            ("true".to_string(), LuaValue::Boolean(false)),
            ("unknown".to_string(), LuaValue::Boolean(true)),
        ]
    );
}

#[test]
fn number_key_asks_for_its_text_and_then_takes_it() {
    let mut bytes = vec![0x54, 0, 0, 0, 0, 1, 0, 0, 0, 0x4E];
    bytes.extend_from_slice(&1.5f64.to_bits().to_le_bytes());
    bytes.extend_from_slice(&[0x42, 1]);
    let asked = parse_lua_data(&bytes, &no_names());
    assert_eq!(asked.err(), Some(CodecError::UnnamedNumber(1.5f64.to_bits())));
    let names = vec![(1.5f64.to_bits(), 1.5f64.to_string())];
    let back = parse_lua_data(&bytes, &names).unwrap();
    assert_eq!(back, vec![("1.5".to_string(), LuaValue::Boolean(true))]);
    let again = serialize_lua_database(&back).unwrap();
    assert_eq!(&again[9..], &[0x53, 3, b'1', b'.', b'5', 0x42, 1]);
}

#[test]
fn concatenated_tables_merge_with_later_ones_winning() {
    let first = vec![
        ("a".to_string(), number(1.0)),
        ("b".to_string(), number(2.0)),
    ];
    let second = vec![
        ("b".to_string(), text("two")),
        ("c".to_string(), LuaValue::Boolean(false)),
    ];
    let mut stream = serialize_lua_database(&first).unwrap();
    stream.extend(serialize_lua_database(&second).unwrap());
    stream.extend(serialize_lua_database(&Vec::new()).unwrap());
    let back = parse_lua_data(&stream, &no_names()).unwrap();
    assert_eq!(
        back,
        vec![
            ("a".to_string(), number(1.0)),
            ("b".to_string(), text("two")),
            ("c".to_string(), LuaValue::Boolean(false)),
        ]
    );
}

#[test]
fn values_that_are_no_tables_are_passed_over() {
    let mut stream = vec![0x42, 1];
    stream.extend(serialize_lua_database(&vec![("a".to_string(), number(1.0))]).unwrap());
    stream.extend_from_slice(&[0x53, 1, b'z']);
    let back = parse_lua_data(&stream, &no_names()).unwrap();
    assert_eq!(back, vec![("a".to_string(), number(1.0))]);
}

#[test]
fn corrupt_trailing_frame_keeps_the_frames_before_it() {
    let first = vec![("a".to_string(), number(1.0))];
    let second = vec![("b".to_string(), text("x"))];
    let mut stream = serialize_lua_database(&first).unwrap();
    stream.extend(serialize_lua_database(&second).unwrap());
    stream.extend_from_slice(&[0x54, 0, 0, 0, 0, 3, 0, 0, 0, 0x53, 9, b'q']);
    let back = parse_lua_data(&stream, &no_names()).unwrap();
    assert_eq!(
        back,
        vec![("a".to_string(), number(1.0)), ("b".to_string(), text("x"))]
    );
}

#[test]
fn leading_garbage_is_skipped_byte_by_byte() {
    let mut stream = vec![0xFF, 0x00, 0x99];
    stream.extend(serialize_lua_database(&vec![("a".to_string(), number(1.0))]).unwrap());
    let back = parse_lua_data(&stream, &no_names()).unwrap();
    assert_eq!(back, vec![("a".to_string(), number(1.0))]);
}

#[test]
fn garbage_alone_is_unparseable() {
    let r = parse_lua_data(&vec![0xff, 0xfe], &no_names());
    assert_eq!(r.err(), Some(CodecError::Unparseable));
}

#[test]
fn one_decoded_value_suppresses_later_errors() {
    let r = parse_lua_data(&vec![0x42, 1, 0xff], &no_names()).unwrap();
    assert!(r.is_empty());
}
