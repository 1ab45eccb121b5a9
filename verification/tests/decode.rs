use json_decoder::decoder::{parse, Decoder};
use json_decoder::value::{JsonError, Value};

fn same(a: &Value, b: &Value) -> bool {
    match (a, b) {
        (Value::Null, Value::Null) => true,
        (Value::Bool(x), Value::Bool(y)) => x == y,
        (Value::Int(x), Value::Int(y)) => x == y,
        (Value::Float(x), Value::Float(y)) => x == y,
        (Value::String(x), Value::String(y)) => x == y,
        (Value::List(x), Value::List(y)) => {
            x.len() == y.len() && x.iter().zip(y.iter()).all(|(p, q)| same(p, q))
        }
        (Value::Object(x), Value::Object(y)) => {
            x.len() == y.len()
                && x.iter().all(|(k, v)| y.iter().any(|(k2, v2)| k == k2 && same(v, v2)))
        }
        _ => false,
    }
}

fn lookup<'a>(v: &'a Value, key: &str) -> Option<&'a Value> {
    match v {
        Value::Object(entries) => entries.iter().find(|(k, _)| k == key).map(|(_, v)| v),
        _ => None,
    }
}

fn float_of(v: &Value) -> f64 {
    match v {
        Value::Float(text) => text.parse::<f64>().unwrap(),
        _ => panic!("not a float: {:?}", v),
    }
}

#[test]
fn empty_input_has_no_document() {
    assert!(matches!(parse(b""), Err(JsonError::NoObjects)));
}

#[test]
fn whitespace_only_has_no_document() {
    assert!(matches!(parse(b" \t\r\n  "), Err(JsonError::NoObjects)));
}

#[test]
fn two_sibling_documents() {
    assert!(matches!(parse(b"{}{}"), Err(JsonError::MultipleObjects)));
    assert!(matches!(parse(b"1 2"), Err(JsonError::MultipleObjects)));
    assert!(matches!(parse(b"[] null"), Err(JsonError::MultipleObjects)));
    assert!(matches!(parse(b"truefalse"), Err(JsonError::MultipleObjects)));
}

#[test]
fn unterminated_object_is_truncated() {
    assert!(matches!(parse(b"{"), Err(JsonError::Truncated)));
}

#[test]
fn unterminated_constructs_are_truncated() {
    assert!(matches!(parse(b"["), Err(JsonError::Truncated)));
    assert!(matches!(parse(b"[1,"), Err(JsonError::Truncated)));
    assert!(matches!(parse(b"[1"), Err(JsonError::Truncated)));
    assert!(matches!(parse(b"{\"a\""), Err(JsonError::Truncated)));
    assert!(matches!(parse(b"{\"a\":"), Err(JsonError::Truncated)));
    assert!(matches!(parse(b"{\"a\":1"), Err(JsonError::Truncated)));
    assert!(matches!(parse(b"\"abc"), Err(JsonError::Truncated)));
    assert!(matches!(parse(b"[[[]]"), Err(JsonError::Truncated)));
}

#[test]
fn stray_comma_is_a_syntax_error() {
    assert!(matches!(parse(b"{,}"), Err(JsonError::Syntax)));
}

#[test]
fn misplaced_bytes_are_syntax_errors() {
    assert!(matches!(parse(b"[,]"), Err(JsonError::Syntax)));
    assert!(matches!(parse(b"[1,]"), Err(JsonError::Syntax)));
    assert!(matches!(parse(b"{\"a\":1,}"), Err(JsonError::Syntax)));
    assert!(matches!(parse(b"{1:2}"), Err(JsonError::Syntax)));
    assert!(matches!(parse(b"{\"a\" 1}"), Err(JsonError::Syntax)));
    assert!(matches!(parse(b"]"), Err(JsonError::Syntax)));
    assert!(matches!(parse(b"}"), Err(JsonError::Syntax)));
    assert!(matches!(parse(b","), Err(JsonError::Syntax)));
    assert!(matches!(parse(b":"), Err(JsonError::Syntax)));
    assert!(matches!(parse(b"[1 2]"), Err(JsonError::Syntax)));
    assert!(matches!(parse(b"[01]"), Err(JsonError::Syntax)));
    assert!(matches!(parse(b"tru"), Err(JsonError::Syntax)));
    assert!(matches!(parse(b"nul "), Err(JsonError::Syntax)));
    assert!(matches!(parse(b"trux"), Err(JsonError::Syntax)));
    assert!(matches!(parse(b"x"), Err(JsonError::Syntax)));
    assert!(matches!(parse(b"+1"), Err(JsonError::Syntax)));
    assert!(matches!(parse(b".5"), Err(JsonError::Syntax)));
    assert!(matches!(parse(b"\x00"), Err(JsonError::Syntax)));
    assert!(matches!(parse(b"[1}"), Err(JsonError::Syntax)));
    assert!(matches!(parse(b"{\"a\":1]"), Err(JsonError::Syntax)));
}

#[test]
fn malformed_numbers_are_syntax_errors() {
    assert!(matches!(parse(b"-"), Err(JsonError::Syntax)));
    assert!(matches!(parse(b"1."), Err(JsonError::Syntax)));
    assert!(matches!(parse(b"1.e5"), Err(JsonError::Syntax)));
    assert!(matches!(parse(b"1e"), Err(JsonError::Syntax)));
    assert!(matches!(parse(b"1e+"), Err(JsonError::Syntax)));
    assert!(matches!(parse(b"-x"), Err(JsonError::Syntax)));
    assert!(matches!(parse(b"[1.]"), Err(JsonError::Syntax)));
    assert!(matches!(parse(b"[-]"), Err(JsonError::Syntax)));
}

#[test]
fn leading_zero_ends_the_number() {
    assert!(matches!(parse(b"01"), Err(JsonError::MultipleObjects)));
}

#[test]
fn invalid_short_escape() {
    match parse(b"\"\\q\"") {
        Err(JsonError::InvalidEscape(text)) => assert_eq!(text, "\\q"),
        other => panic!("unexpected: {:?}", other),
    }
    match parse(b"[\"ab\\x41\"]") {
        Err(JsonError::InvalidEscape(text)) => assert_eq!(text, "\\x"),
        other => panic!("unexpected: {:?}", other),
    }
}

#[test]
fn short_hex_escape_at_end_of_input_is_truncated() {
    assert!(matches!(parse(b"\"\\u00"), Err(JsonError::Truncated)));
    assert!(matches!(parse(b"\"\\u"), Err(JsonError::Truncated)));
    assert!(matches!(parse(b"\"\\u0"), Err(JsonError::Truncated)));
    assert!(matches!(parse(b"\"\\u000"), Err(JsonError::Truncated)));
    assert!(matches!(parse(b"\"\\u0041"), Err(JsonError::Truncated)));
}

#[test]
fn backslash_at_end_of_input_is_a_syntax_error() {
    assert!(matches!(parse(b"\"\\"), Err(JsonError::Syntax)));
    assert!(matches!(parse(b"\"\\ \""), Err(JsonError::Syntax)));
}

#[test]
fn short_hex_escape_inside_a_string_is_invalid() {
    match parse(b"\"\\u00\" ") {
        Err(JsonError::InvalidEscape(text)) => assert_eq!(text, "\\u00\" "),
        other => panic!("unexpected: {:?}", other),
    }
    match parse(b"\"\\u12G4\"") {
        Err(JsonError::InvalidEscape(text)) => assert_eq!(text, "\\u12G4"),
        other => panic!("unexpected: {:?}", other),
    }
    match parse(b"\"\\u+123\"") {
        Err(JsonError::InvalidEscape(text)) => assert_eq!(text, "\\u+123"),
        other => panic!("unexpected: {:?}", other),
    }
}

#[test]
fn invalid_escape_at_end_of_input_reports_only_real_input() {
    match parse(b"\"\\u00zz") {
        Err(JsonError::InvalidEscape(text)) => assert_eq!(text, "\\u00zz"),
        other => panic!("unexpected: {:?}", other),
    }
}

#[test]
fn surrogate_escape_is_invalid() {
    match parse(b"\"\\ud800\"") {
        Err(JsonError::InvalidEscape(text)) => assert_eq!(text, "\\ud800"),
        other => panic!("unexpected: {:?}", other),
    }
    match parse(b"\"\\uDFFF\"") {
        Err(JsonError::InvalidEscape(text)) => assert_eq!(text, "\\uDFFF"),
        other => panic!("unexpected: {:?}", other),
    }
    match parse(b"\"\\ud83d\\ude00\"") {
        Err(JsonError::InvalidEscape(text)) => assert_eq!(text, "\\ud83d"),
        other => panic!("unexpected: {:?}", other),
    }
}

#[test]
fn unicode_escapes_resolve() {
    let v = parse(b"\"\\u0041\\u00e9\\u20AC\\ud7ff\\ue000\\uffff\\u0000\"").unwrap();
    assert!(same(&v, &Value::String("A\u{e9}\u{20ac}\u{d7ff}\u{e000}\u{ffff}\u{0}".to_string())));
}

#[test]
fn short_escapes_resolve() {
    let v = parse(b"\"a\\\"b\\\\c\\/d\\be\\tf\\ng\\fh\\ri\"").unwrap();
    assert!(same(&v, &Value::String("a\"b\\c/d\u{8}e\tf\ng\u{c}h\ri".to_string())));
}

#[test]
fn last_binding_of_a_key_wins() {
    let v = parse(b"{\"a\":1,\"a\":2}").unwrap();
    match &v {
        Value::Object(entries) => assert_eq!(entries.len(), 1),
        other => panic!("unexpected: {:?}", other),
    }
    assert!(same(lookup(&v, "a").unwrap(), &Value::Int(2)));
    let v = parse(b"{\"a\":1,\"b\":true,\"a\":[],\"b\":null,\"c\":\"a\"}").unwrap();
    match &v {
        Value::Object(entries) => assert_eq!(entries.len(), 3),
        other => panic!("unexpected: {:?}", other),
    }
    assert!(same(lookup(&v, "a").unwrap(), &Value::List(vec![])));
    assert!(same(lookup(&v, "b").unwrap(), &Value::Null));
    assert!(same(lookup(&v, "c").unwrap(), &Value::String("a".to_string())));
}

#[test]
fn integers_decode_to_int() {
    assert!(same(&parse(b"123").unwrap(), &Value::Int(123)));
    assert!(same(&parse(b"0").unwrap(), &Value::Int(0)));
    assert!(same(&parse(b"-0").unwrap(), &Value::Int(0)));
    assert!(same(&parse(b"-17").unwrap(), &Value::Int(-17)));
    assert!(same(&parse(b" 42 ").unwrap(), &Value::Int(42)));
    assert!(same(&parse(b"9223372036854775807").unwrap(), &Value::Int(i64::MAX)));
    assert!(same(&parse(b"-9223372036854775808").unwrap(), &Value::Int(i64::MIN)));
}

#[test]
fn integers_beyond_64_bits_are_rejected() {
    assert!(matches!(parse(b"9223372036854775808"), Err(JsonError::Syntax)));
    assert!(matches!(parse(b"-9223372036854775809"), Err(JsonError::Syntax)));
    assert!(matches!(parse(b"99999999999999999999999999"), Err(JsonError::Syntax)));
    assert!(matches!(parse(b"[18446744073709551616]"), Err(JsonError::Syntax)));
}

#[test]
fn fractions_and_exponents_decode_to_float() {
    let v = parse(b"1.5").unwrap();
    assert!(same(&v, &Value::Float("1.5".to_string())));
    assert_eq!(float_of(&v), 1.5);
    let v = parse(b"1e2").unwrap();
    assert!(matches!(v, Value::Float(_)));
    assert_eq!(float_of(&v), 100.0);
    assert_eq!(float_of(&parse(b"-0.25E-2").unwrap()), -0.0025);
    assert_eq!(float_of(&parse(b"0.0").unwrap()), 0.0);
    assert_eq!(float_of(&parse(b"0e0").unwrap()), 0.0);
    assert_eq!(float_of(&parse(b"12.5e+3").unwrap()), 12500.0);
    match parse(b"[1E5]").unwrap() {
        Value::List(items) => assert_eq!(float_of(&items[0]), 100000.0),
        other => panic!("unexpected: {:?}", other),
    }
}

#[test]
fn literals_decode() {
    assert!(same(&parse(b"null").unwrap(), &Value::Null));
    assert!(same(&parse(b"true").unwrap(), &Value::Bool(true)));
    assert!(same(&parse(b"false").unwrap(), &Value::Bool(false)));
    assert!(same(&parse(b"\n true\t").unwrap(), &Value::Bool(true)));
}

#[test]
fn strings_decode() {
    assert!(same(&parse(b"\"\"").unwrap(), &Value::String(String::new())));
    assert!(same(&parse(b"\"hello, world\"").unwrap(), &Value::String("hello, world".to_string())));
    assert!(same(&parse(b"\"{[:,]}\"").unwrap(), &Value::String("{[:,]}".to_string())));
}

#[test]
fn bytes_above_ascii_stand_for_their_code_points() {
    let v = parse(&[b'"', 0xC3, 0xA9, 0x7F, 0xFF, b'"']).unwrap();
    assert!(same(&v, &Value::String("\u{c3}\u{a9}\u{7f}\u{ff}".to_string())));
}

#[test]
fn control_characters_in_strings_are_rejected() {
    assert!(matches!(parse(b"\"a\nb\""), Err(JsonError::Syntax)));
    assert!(matches!(parse(b"\"a\tb\""), Err(JsonError::Syntax)));
    assert!(matches!(parse(b"\"a\x01b\""), Err(JsonError::Syntax)));
}

#[test]
fn containers_decode() {
    assert!(same(&parse(b"[]").unwrap(), &Value::List(vec![])));
    assert!(same(&parse(b"{}").unwrap(), &Value::Object(vec![])));
    assert!(same(&parse(b" [ ] ").unwrap(), &Value::List(vec![])));
    assert!(same(&parse(b" { } ").unwrap(), &Value::Object(vec![])));
    let v = parse(b"[1, \"two\", [3.0, null], {\"k\": [true, false]}, {}]").unwrap();
    let expected = Value::List(vec![
        Value::Int(1),
        Value::String("two".to_string()),
        Value::List(vec![Value::Float("3.0".to_string()), Value::Null]),
        Value::Object(vec![(
            "k".to_string(),
            Value::List(vec![Value::Bool(true), Value::Bool(false)]),
        )]),
        Value::Object(vec![]),
    ]);
    assert!(same(&v, &expected));
}

#[test]
fn nested_objects_decode() {
    let v = parse(b"{ \"a\" : { \"b\" : { \"c\" : -1 } } , \"d\":[{\"e\":\"f\"}] }").unwrap();
    let c = lookup(lookup(lookup(&v, "a").unwrap(), "b").unwrap(), "c").unwrap();
    assert!(same(c, &Value::Int(-1)));
    match lookup(&v, "d").unwrap() {
        Value::List(items) => {
            assert_eq!(items.len(), 1);
            assert!(same(lookup(&items[0], "e").unwrap(), &Value::String("f".to_string())));
        }
        other => panic!("unexpected: {:?}", other),
    }
}

#[test]
fn decoding_twice_gives_equal_values() {
    let text = b"{\"a\":[1,2.5,\"x\",{\"b\":null}],\"c\":{\"d\":true}}";
    let first = parse(text).unwrap();
    let second = parse(text).unwrap();
    assert!(same(&first, &second));
    assert!(matches!(parse(b"[1,"), Err(JsonError::Truncated)));
    assert!(matches!(parse(b"[1,"), Err(JsonError::Truncated)));
    let third = parse(text).unwrap();
    assert!(same(&first, &third));
}

fn depth_of(v: &Value) -> usize {
    let mut depth = 0;
    let mut at = v;
    loop {
        match at {
            Value::List(items) if items.len() == 1 => {
                depth += 1;
                at = &items[0];
            }
            Value::List(items) if items.is_empty() => return depth + 1,
            _ => panic!("not a nest of arrays"),
        }
    }
}

fn unnest(v: Value) {
    let mut at = v;
    loop {
        match at {
            Value::List(mut items) => match items.pop() {
                Some(inner) => at = inner,
                None => return,
            },
            _ => return,
        }
    }
}

#[test]
fn nested_arrays_decode_at_any_depth() {
    for depth in [1usize, 2, 3, 10, 1000, 200_000] {
        let mut text = vec![b'['; depth];
        text.extend(std::iter::repeat(b']').take(depth));
        let v = parse(&text).unwrap();
        assert_eq!(depth_of(&v), depth);
        unnest(v);
    }
}

#[test]
fn incremental_decoding_matches_whole_input_decoding() {
    let text = b" [10, {\"k\": \"v\\n\"}, 2e3] ";
    let mut d = Decoder::new();
    for &b in text.iter() {
        d.feed(b).unwrap();
    }
    let v = d.finish().unwrap();
    assert!(same(&v, &parse(text).unwrap()));
}

#[test]
fn a_trailing_number_is_flushed_at_the_end() {
    let mut d = Decoder::new();
    d.feed(b'7').unwrap();
    d.feed(b'1').unwrap();
    assert!(same(&d.finish().unwrap(), &Value::Int(71)));
}

#[test]
fn root_exports_name_the_same_items() {
    let v: json_decoder::Value = json_decoder::parse(b"[true]").unwrap();
    assert!(same(&v, &Value::List(vec![Value::Bool(true)])));
    assert!(matches!(json_decoder::parse(b""), Err(json_decoder::JsonError::NoObjects)));
}

#[test]
fn key_order_is_that_of_first_appearance() {
    let v = parse(b"{\"b\":1,\"a\":2,\"b\":3}").unwrap();
    match v {
        Value::Object(entries) => {
            assert_eq!(entries.len(), 2);
            assert_eq!(entries[0].0, "b");
            assert!(same(&entries[0].1, &Value::Int(3)));
            assert_eq!(entries[1].0, "a");
            assert!(same(&entries[1].1, &Value::Int(2)));
        }
        other => panic!("unexpected: {:?}", other),
    }
}

#[test]
fn keys_may_be_empty_or_escaped() {
    let v = parse(b"{\"\":1,\"a\\nb\":2,\"\\u0041\":3,\"A\":4}").unwrap();
    assert!(same(lookup(&v, "").unwrap(), &Value::Int(1)));
    assert!(same(lookup(&v, "a\nb").unwrap(), &Value::Int(2)));
    assert!(same(lookup(&v, "A").unwrap(), &Value::Int(4)));
    match v {
        Value::Object(entries) => assert_eq!(entries.len(), 3),
        other => panic!("unexpected: {:?}", other),
    }
}

#[test]
fn the_first_failure_is_reported() {
    assert!(matches!(parse(b"[1,,\"\\q\"]"), Err(JsonError::Syntax)));
    assert!(matches!(parse(b"\"\\q\" ]"), Err(JsonError::InvalidEscape(_))));
    assert!(matches!(parse(b"{} {"), Err(JsonError::Truncated)));
    assert!(matches!(parse(b"{} ,"), Err(JsonError::Syntax)));
}

#[test]
fn a_failed_byte_is_reported_by_feed() {
    let mut d = Decoder::new();
    d.feed(b'[').unwrap();
    d.feed(b'1').unwrap();
    assert!(matches!(d.feed(b'}'), Err(JsonError::Syntax)));
}

#[test]
fn finish_without_input_has_no_document() {
    assert!(matches!(Decoder::new().finish(), Err(JsonError::NoObjects)));
}

#[test]
fn the_control_stack_is_as_deep_as_the_nesting() {
    let depth = 500usize;
    let mut d = Decoder::new();
    assert_eq!(d.depth(), 0);
    for k in 1..=depth {
        d.feed(b'[').unwrap();
        assert_eq!(d.depth(), k);
    }
    // A closed array keeps its saved state until the next byte resumes it.
    for k in 1..=depth {
        d.feed(b']').unwrap();
        assert_eq!(d.depth(), depth - k + 1);
    }
    d.feed(b' ').unwrap();
    assert_eq!(d.depth(), 0);
    let v = d.finish().unwrap();
    assert_eq!(depth_of(&v), depth);
}

#[test]
fn scalars_in_progress_are_on_the_control_stack() {
    let mut d = Decoder::new();
    d.feed(b'[').unwrap();
    d.feed(b'1').unwrap();
    assert_eq!(d.depth(), 2);
    d.feed(b',').unwrap();
    assert_eq!(d.depth(), 1);
    d.feed(b'"').unwrap();
    assert_eq!(d.depth(), 2);
    for &b in b"\\u0041".iter() {
        d.feed(b).unwrap();
        assert_eq!(d.depth(), 2);
    }
    d.feed(b'"').unwrap();
    assert_eq!(d.depth(), 2);
    d.feed(b']').unwrap();
    assert_eq!(d.depth(), 1);
    let v = d.finish().unwrap();
    assert!(same(&v, &Value::List(vec![Value::Int(1), Value::String("A".to_string())])));
}
