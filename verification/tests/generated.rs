use json_decoder::{parse, JsonError, Value};

/// A small deterministic generator of numbers.
struct Dice(u64);

impl Dice {
    fn roll(&mut self, sides: u64) -> u64 {
        self.0 = self.0.wrapping_mul(6364136223846793005).wrapping_add(1442695040888963407);
        (self.0 >> 33) % sides
    }
}

fn blank(dice: &mut Dice, text: &mut Vec<u8>) {
    for _ in 0..dice.roll(3) {
        text.push(b" \t\n\r"[dice.roll(4) as usize]);
    }
}

fn string(dice: &mut Dice, text: &mut Vec<u8>) -> String {
    let mut value = String::new();
    text.push(b'"');
    for _ in 0..dice.roll(6) {
        match dice.roll(8) {
            0 => {
                text.extend_from_slice(b"\\\"");
                value.push('"');
            }
            1 => {
                text.extend_from_slice(b"\\\\");
                value.push('\\');
            }
            2 => {
                text.extend_from_slice(b"\\/");
                value.push('/');
            }
            3 => {
                let (letter, c) = [(b'b', '\u{8}'), (b't', '\t'), (b'n', '\n'), (b'f', '\u{c}'), (b'r', '\r')]
                    [dice.roll(5) as usize];
                text.push(b'\\');
                text.push(letter);
                value.push(c);
            }
            4 => {
                let code = [0x41u32, 0xe9, 0x20ac, 0xd7ff, 0xe000, 0xfffd, 0x0, 0x7f][dice.roll(8) as usize];
                let digits = if dice.roll(2) == 0 {
                    format!("\\u{:04x}", code)
                } else {
                    format!("\\u{:04X}", code)
                };
                text.extend_from_slice(digits.as_bytes());
                value.push(char::from_u32(code).unwrap());
            }
            _ => {
                let b = [b'a', b' ', b'0', b'{', b']', b',', b':', b'~', 0x7f, 0x80, 0xc3, 0xff]
                    [dice.roll(12) as usize];
                text.push(b);
                value.push(b as char);
            }
        }
    }
    text.push(b'"');
    value
}

fn number(dice: &mut Dice, text: &mut Vec<u8>) -> Value {
    let mut literal = String::new();
    if dice.roll(2) == 0 {
        literal.push('-');
    }
    if dice.roll(4) == 0 {
        literal.push('0');
    } else {
        literal.push((b'1' + dice.roll(9) as u8) as char);
        for _ in 0..dice.roll(5) {
            literal.push((b'0' + dice.roll(10) as u8) as char);
        }
    }
    let mut integer = true;
    if dice.roll(3) == 0 {
        integer = false;
        literal.push('.');
        for _ in 0..1 + dice.roll(3) {
            literal.push((b'0' + dice.roll(10) as u8) as char);
        }
    }
    if dice.roll(3) == 0 {
        integer = false;
        literal.push(if dice.roll(2) == 0 { 'e' } else { 'E' });
        match dice.roll(3) {
            0 => literal.push('+'),
            1 => literal.push('-'),
            _ => {}
        }
        for _ in 0..1 + dice.roll(2) {
            literal.push((b'0' + dice.roll(10) as u8) as char);
        }
    }
    text.extend_from_slice(literal.as_bytes());
    if integer {
        Value::Int(literal.parse().unwrap())
    } else {
        Value::Float(literal)
    }
}

fn document(dice: &mut Dice, depth: u32, text: &mut Vec<u8>) -> Value {
    blank(dice, text);
    let kinds = if depth == 0 { 5 } else { 7 };
    let value = match dice.roll(kinds) {
        0 => {
            text.extend_from_slice(b"null");
            Value::Null
        }
        1 => {
            text.extend_from_slice(b"true");
            Value::Bool(true)
        }
        2 => {
            text.extend_from_slice(b"false");
            Value::Bool(false)
        }
        3 => number(dice, text),
        4 => Value::String(string(dice, text)),
        5 => {
            text.push(b'[');
            let count = dice.roll(4);
            let mut items = Vec::new();
            if count == 0 {
                blank(dice, text);
            }
            for i in 0..count {
                if i > 0 {
                    text.push(b',');
                }
                items.push(document(dice, depth - 1, text));
            }
            text.push(b']');
            Value::List(items)
        }
        _ => {
            text.push(b'{');
            let count = dice.roll(4);
            let mut entries: Vec<(String, Value)> = Vec::new();
            if count == 0 {
                blank(dice, text);
            }
            for i in 0..count {
                if i > 0 {
                    text.push(b',');
                }
                blank(dice, text);
                let key = string(dice, text);
                blank(dice, text);
                text.push(b':');
                let value = document(dice, depth - 1, text);
                match entries.iter_mut().find(|(k, _)| *k == key) {
                    Some(entry) => entry.1 = value,
                    None => entries.push((key, value)),
                }
            }
            text.push(b'}');
            Value::Object(entries)
        }
    };
    blank(dice, text);
    value
}

fn same(a: &Value, b: &Value) -> bool {
    match (a, b) {
        (Value::Null, Value::Null) => true,
        (Value::Bool(x), Value::Bool(y)) => x == y,
        (Value::Int(x), Value::Int(y)) => x == y,
        (Value::Float(x), Value::Float(y)) => x == y,
        (Value::String(x), Value::String(y)) => x == y,
        (Value::List(x), Value::List(y)) => {
            x.len() == y.len() && x.iter().zip(y.iter()).all(|(p, q)| same(p, q))
        }
        (Value::Object(x), Value::Object(y)) => {
            x.len() == y.len()
                && x.iter().zip(y.iter()).all(|((k, v), (k2, v2))| k == k2 && same(v, v2))
        }
        _ => false,
    }
}

#[test]
fn generated_documents_decode_to_their_values() {
    let mut dice = Dice(2024);
    for _ in 0..3000 {
        let mut text = Vec::new();
        let expected = document(&mut dice, 4, &mut text);
        match parse(&text) {
            Ok(value) => assert!(
                same(&value, &expected),
                "{:?} decoded to {:?}, not {:?}",
                String::from_utf8_lossy(&text),
                value,
                expected
            ),
            Err(e) => panic!("{:?} failed with {:?}", String::from_utf8_lossy(&text), e),
        }
    }
}

#[test]
fn generated_documents_cut_short_do_not_decode_to_the_whole() {
    let mut dice = Dice(7);
    for _ in 0..500 {
        let mut text = Vec::new();
        text.push(b'[');
        let _ = document(&mut dice, 3, &mut text);
        text.push(b']');
        // Every proper beginning of an array lacks its closing bracket.
        let cut = 1 + dice.roll(text.len() as u64 - 1) as usize;
        match parse(&text[..cut]) {
            Err(JsonError::Truncated) | Err(JsonError::Syntax) | Err(JsonError::InvalidEscape(_)) => {}
            other => panic!(
                "{:?} gave {:?}",
                String::from_utf8_lossy(&text[..cut]),
                other
            ),
        }
    }
}
