use json_decoder::decoder::{do_action, Decoder};
use json_decoder::tables::{category, lookup, resume, CATCODE, GOTOS, STATES};
use json_decoder::text::{
    digit_of, hex_digit_of, parse_hex4, parse_int, resolve_short, resolve_unicode, text_after,
    text_of,
};
use json_decoder::value::{bind, JsonError, Value};

fn chars(s: &str) -> Vec<char> {
    s.chars().collect()
}

#[test]
fn categories_of_bytes() {
    assert_eq!(category(b' '), 0);
    assert_eq!(category(b'\t'), 1);
    assert_eq!(category(b'\n'), 1);
    assert_eq!(category(b'\r'), 1);
    assert_eq!(category(0), 2);
    assert_eq!(category(0x1f), 2);
    assert_eq!(category(b'{'), 3);
    assert_eq!(category(b'}'), 4);
    assert_eq!(category(b'['), 5);
    assert_eq!(category(b']'), 6);
    assert_eq!(category(b','), 7);
    assert_eq!(category(b':'), 8);
    assert_eq!(category(b'"'), 9);
    assert_eq!(category(b'\\'), 10);
    assert_eq!(category(b'/'), 11);
    assert_eq!(category(b'-'), 12);
    assert_eq!(category(b'+'), 13);
    assert_eq!(category(b'.'), 14);
    assert_eq!(category(b'0'), 15);
    for b in b'1'..=b'9' {
        assert_eq!(category(b), 16);
    }
    assert_eq!(category(b'a'), 17);
    assert_eq!(category(b'b'), 18);
    assert_eq!(category(b'e'), 19);
    assert_eq!(category(b'E'), 20);
    assert_eq!(category(b'f'), 21);
    assert_eq!(category(b'l'), 22);
    assert_eq!(category(b'n'), 23);
    assert_eq!(category(b'r'), 24);
    assert_eq!(category(b's'), 25);
    assert_eq!(category(b't'), 26);
    assert_eq!(category(b'u'), 27);
    assert_eq!(category(b'x'), 28);
    assert_eq!(category(b'~'), 28);
}

#[test]
fn bytes_above_the_ceiling_share_one_category() {
    for b in 0x7eu8..=0xff {
        assert_eq!(category(b), CATCODE[0x7e]);
    }
}

#[test]
fn tables_have_one_row_per_state() {
    assert_eq!(STATES.len(), 37);
    assert_eq!(GOTOS.len(), 37);
    assert_eq!(CATCODE.len(), 127);
    for row in STATES.iter() {
        assert_eq!(row.len(), 29);
    }
}

#[test]
fn lookup_reads_the_packed_table() {
    // In the start state `[` saves, pushes a list and goes to the state after `[`.
    assert_eq!(lookup(0, 5), 0x8101);
    // A comma between documents is rejected.
    assert_eq!(lookup(0, 7), 0xFFFF);
    // Whatever follows `]` resumes the saved state.
    assert_eq!(lookup(11, 0), 0x00FF);
    // After four digits the escape is resolved on the way back into the string.
    assert_eq!(lookup(18, 9), 0x8EFF);
    for state in 0..37u8 {
        for cat in 0..29u8 {
            assert_eq!(lookup(state, cat), STATES[state as usize][cat as usize]);
        }
    }
}

#[test]
fn resume_states() {
    assert_eq!(resume(0), 0);
    assert_eq!(resume(1), 3);
    assert_eq!(resume(2), 3);
    assert_eq!(resume(5), 7);
    assert_eq!(resume(6), 7);
    assert_eq!(resume(8), 9);
    assert_eq!(resume(18), 12);
}

#[test]
fn integer_literals() {
    assert_eq!(parse_int(&chars("0")), Some(0));
    assert_eq!(parse_int(&chars("-0")), Some(0));
    assert_eq!(parse_int(&chars("123")), Some(123));
    assert_eq!(parse_int(&chars("-123")), Some(-123));
    assert_eq!(parse_int(&chars("007")), Some(7));
    assert_eq!(parse_int(&chars("9223372036854775807")), Some(i64::MAX));
    assert_eq!(parse_int(&chars("-9223372036854775808")), Some(i64::MIN));
    assert_eq!(parse_int(&chars("9223372036854775808")), None);
    assert_eq!(parse_int(&chars("-9223372036854775809")), None);
    assert_eq!(parse_int(&chars("92233720368547758070")), None);
    assert_eq!(parse_int(&chars("")), None);
    assert_eq!(parse_int(&chars("-")), None);
    assert_eq!(parse_int(&chars("+1")), None);
    assert_eq!(parse_int(&chars("1.5")), None);
    assert_eq!(parse_int(&chars("12a")), None);
    assert_eq!(parse_int(&chars("99999999999999999999x")), None);
}

#[test]
fn digits() {
    assert_eq!(digit_of('0'), Some(0));
    assert_eq!(digit_of('9'), Some(9));
    assert_eq!(digit_of('/'), None);
    assert_eq!(digit_of(':'), None);
    assert_eq!(hex_digit_of('0'), Some(0));
    assert_eq!(hex_digit_of('9'), Some(9));
    assert_eq!(hex_digit_of('a'), Some(10));
    assert_eq!(hex_digit_of('f'), Some(15));
    assert_eq!(hex_digit_of('A'), Some(10));
    assert_eq!(hex_digit_of('F'), Some(15));
    assert_eq!(hex_digit_of('g'), None);
    assert_eq!(hex_digit_of('G'), None);
    assert_eq!(hex_digit_of(' '), None);
}

#[test]
fn four_hexadecimal_digits() {
    assert_eq!(parse_hex4(&chars("0000")), Some(0));
    assert_eq!(parse_hex4(&chars("0041")), Some(0x41));
    assert_eq!(parse_hex4(&chars("1234")), Some(0x1234));
    assert_eq!(parse_hex4(&chars("abcd")), Some(0xabcd));
    assert_eq!(parse_hex4(&chars("ABCD")), Some(0xabcd));
    assert_eq!(parse_hex4(&chars("FfFf")), Some(0xffff));
    assert_eq!(parse_hex4(&chars("123")), None);
    assert_eq!(parse_hex4(&chars("12345")), None);
    assert_eq!(parse_hex4(&chars("+123")), None);
    assert_eq!(parse_hex4(&chars("12g4")), None);
    assert_eq!(parse_hex4(&chars("")), None);
}

#[test]
fn escapes_resolve_to_characters() {
    assert_eq!(resolve_short(b'b'), Some('\u{8}'));
    assert_eq!(resolve_short(b't'), Some('\t'));
    assert_eq!(resolve_short(b'n'), Some('\n'));
    assert_eq!(resolve_short(b'f'), Some('\u{c}'));
    assert_eq!(resolve_short(b'r'), Some('\r'));
    assert_eq!(resolve_short(b'q'), None);
    assert_eq!(resolve_short(b'"'), None);
    assert_eq!(resolve_unicode(&chars("0041")), Some('A'));
    assert_eq!(resolve_unicode(&chars("20ac")), Some('\u{20ac}'));
    assert_eq!(resolve_unicode(&chars("d7ff")), Some('\u{d7ff}'));
    assert_eq!(resolve_unicode(&chars("d800")), None);
    assert_eq!(resolve_unicode(&chars("dfff")), None);
    assert_eq!(resolve_unicode(&chars("e000")), Some('\u{e000}'));
    assert_eq!(resolve_unicode(&chars("00")), None);
}

#[test]
fn texts_hold_the_characters() {
    assert_eq!(text_of(&chars("")), "");
    assert_eq!(text_of(&chars("h\u{e9}llo \u{20ac}")), "h\u{e9}llo \u{20ac}");
    assert_eq!(text_after('\\', 'u', &chars("12G4")), "\\u12G4");
    assert_eq!(text_after('a', 'b', &chars("")), "ab");
}

#[test]
fn bind_replaces_or_adds() {
    let mut entries: Vec<(String, Value)> = Vec::new();
    bind(&mut entries, "a".to_string(), Value::Int(1));
    bind(&mut entries, "b".to_string(), Value::Int(2));
    bind(&mut entries, "a".to_string(), Value::Int(3));
    assert_eq!(entries.len(), 2);
    assert_eq!(entries[0].0, "a");
    assert!(matches!(entries[0].1, Value::Int(3)));
    assert_eq!(entries[1].0, "b");
    assert!(matches!(entries[1].1, Value::Int(2)));
}

#[test]
fn value_accessors() {
    assert_eq!(Value::String("k".to_string()).into_string(), "k");
    let mut list = Value::List(vec![Value::Null]);
    list.as_list().push(Value::Bool(true));
    match &list {
        Value::List(items) => assert_eq!(items.len(), 2),
        other => panic!("unexpected: {:?}", other),
    }
    let mut object = Value::Object(vec![]);
    object.as_object().push(("k".to_string(), Value::Null));
    match &object {
        Value::Object(entries) => assert_eq!(entries.len(), 1),
        other => panic!("unexpected: {:?}", other),
    }
}

#[test]
fn actions_on_the_buffers() {
    let mut ds: Vec<Value> = Vec::new();
    let mut ss: Vec<char> = Vec::new();
    let mut es: Vec<char> = Vec::new();
    // A list, a string read byte by byte, and the string appended to the list.
    do_action(1, b'[', &mut ds, &mut ss, &mut es).unwrap();
    do_action(11, b'h', &mut ds, &mut ss, &mut es).unwrap();
    do_action(11, 0xE9, &mut ds, &mut ss, &mut es).unwrap();
    assert_eq!(ss, chars("h\u{e9}"));
    do_action(13, b'n', &mut ds, &mut ss, &mut es).unwrap();
    do_action(12, b'0', &mut ds, &mut ss, &mut es).unwrap();
    do_action(12, b'0', &mut ds, &mut ss, &mut es).unwrap();
    do_action(12, b'4', &mut ds, &mut ss, &mut es).unwrap();
    do_action(12, b'1', &mut ds, &mut ss, &mut es).unwrap();
    assert_eq!(es, chars("0041"));
    do_action(14, b'"', &mut ds, &mut ss, &mut es).unwrap();
    assert!(es.is_empty());
    assert_eq!(ss, chars("h\u{e9}\nA"));
    do_action(8, b'"', &mut ds, &mut ss, &mut es).unwrap();
    assert!(ss.is_empty());
    do_action(3, b',', &mut ds, &mut ss, &mut es).unwrap();
    assert_eq!(ds.len(), 1);
    match &ds[0] {
        Value::List(items) => {
            assert_eq!(items.len(), 1);
            assert!(matches!(&items[0], Value::String(s) if s == "h\u{e9}\nA"));
        }
        other => panic!("unexpected: {:?}", other),
    }
    // An object, a key, a number, and the binding.
    do_action(2, b'{', &mut ds, &mut ss, &mut es).unwrap();
    do_action(11, b'k', &mut ds, &mut ss, &mut es).unwrap();
    do_action(8, b'"', &mut ds, &mut ss, &mut es).unwrap();
    do_action(11, b'-', &mut ds, &mut ss, &mut es).unwrap();
    do_action(11, b'4', &mut ds, &mut ss, &mut es).unwrap();
    do_action(11, b'2', &mut ds, &mut ss, &mut es).unwrap();
    do_action(9, b'}', &mut ds, &mut ss, &mut es).unwrap();
    assert!(ss.is_empty());
    do_action(4, b'}', &mut ds, &mut ss, &mut es).unwrap();
    assert_eq!(ds.len(), 2);
    match &ds[1] {
        Value::Object(entries) => {
            assert_eq!(entries.len(), 1);
            assert_eq!(entries[0].0, "k");
            assert!(matches!(entries[0].1, Value::Int(-42)));
        }
        other => panic!("unexpected: {:?}", other),
    }
    // The literals and a number with a fraction.
    do_action(5, b'l', &mut ds, &mut ss, &mut es).unwrap();
    do_action(6, b'e', &mut ds, &mut ss, &mut es).unwrap();
    do_action(7, b'e', &mut ds, &mut ss, &mut es).unwrap();
    do_action(11, b'1', &mut ds, &mut ss, &mut es).unwrap();
    do_action(11, b'.', &mut ds, &mut ss, &mut es).unwrap();
    do_action(11, b'5', &mut ds, &mut ss, &mut es).unwrap();
    do_action(10, b' ', &mut ds, &mut ss, &mut es).unwrap();
    assert!(ss.is_empty());
    assert!(matches!(ds[2], Value::Null));
    assert!(matches!(ds[3], Value::Bool(true)));
    assert!(matches!(ds[4], Value::Bool(false)));
    assert!(matches!(&ds[5], Value::Float(t) if t == "1.5"));
}

#[test]
fn actions_that_fail_leave_the_buffers() {
    let mut ds: Vec<Value> = vec![Value::Null];
    let mut ss: Vec<char> = chars("ab");
    let mut es: Vec<char> = chars("d800");
    match do_action(13, b'q', &mut ds, &mut ss, &mut es) {
        Err(JsonError::InvalidEscape(text)) => assert_eq!(text, "\\q"),
        other => panic!("unexpected: {:?}", other),
    }
    match do_action(14, b'x', &mut ds, &mut ss, &mut es) {
        Err(JsonError::InvalidEscape(text)) => assert_eq!(text, "\\ud800"),
        other => panic!("unexpected: {:?}", other),
    }
    assert!(matches!(do_action(9, b' ', &mut ds, &mut ss, &mut es), Err(JsonError::Syntax)));
    assert_eq!(ds.len(), 1);
    assert_eq!(ss, chars("ab"));
    assert_eq!(es, chars("d800"));
    let mut big: Vec<char> = chars("9223372036854775808");
    assert!(matches!(do_action(9, b' ', &mut ds, &mut big, &mut es), Err(JsonError::Syntax)));
    assert_eq!(big, chars("9223372036854775808"));
}

#[test]
fn the_driver_takes_a_category_and_a_byte() {
    let mut d = Decoder::new();
    d.parse_ch(category(b'"'), b'"').unwrap();
    d.parse_ch(category(b'x'), b'x').unwrap();
    d.parse_ch(category(b'"'), b'"').unwrap();
    match d.finish() {
        Ok(Value::String(s)) => assert_eq!(s, "x"),
        other => panic!("unexpected: {:?}", other),
    }
}
