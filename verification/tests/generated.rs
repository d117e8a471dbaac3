use cfua::{Cfua, CfuaFloat, CfuaType};

/// A small generator of numbers, the same on every run.
struct Numbers {
    state: u64,
}

impl Numbers {
    fn next(&mut self) -> u64 {
        self.state = self.state.wrapping_mul(6364136223846793005).wrapping_add(1442695040888963407);
        self.state >> 33
    }

    fn below(&mut self, limit: u64) -> u64 {
        self.next() % limit
    }

    fn pick(&mut self, from: &[char]) -> char {
        from[self.below(from.len() as u64) as usize]
    }
}

fn name(numbers: &mut Numbers) -> String {
    let letters: Vec<char> = ('a'..='z').collect();
    let mut with_hyphen = letters.clone();
    with_hyphen.push('-');
    let mut name = String::new();
    name.push(numbers.pick(&letters));
    let more = numbers.below(6);
    for i in 0..more {
        if i == 0 {
            name.push(numbers.pick(&letters));
        } else {
            name.push(numbers.pick(&with_hyphen));
        }
    }
    name
}

fn string(numbers: &mut Numbers) -> String {
    let alphabet = [
        'a', 'z', 'A', '0', '9', ' ', ' ', '\n', '\n', '\'', '#', '[', ']', ',', ':', '@', '%',
        '-', '.', '\t', '\r', 'é', 'ß', '日', '本', '🙂', '\u{0}', '\u{7f}',
    ];
    let length = numbers.below(12);
    (0..length).map(|_| numbers.pick(&alphabet)).collect()
}

fn integer(numbers: &mut Numbers) -> i64 {
    match numbers.below(6) {
        0 => 0,
        1 => i64::MIN,
        2 => i64::MAX,
        3 => numbers.below(1000) as i64,
        4 => -(numbers.below(1000) as i64),
        _ => (numbers.next() << 31 ^ numbers.next()) as i64,
    }
}

fn float(numbers: &mut Numbers) -> CfuaFloat {
    match numbers.below(5) {
        0 => CfuaFloat::nan(),
        1 => CfuaFloat::infinity(),
        2 => CfuaFloat::neg_infinity(),
        _ => {
            let sign = if numbers.below(2) == 0 { "-" } else { "" };
            let text = format!("{}{}.{}", sign, numbers.below(100000), numbers.below(100000));
            CfuaFloat::from_text(&text).unwrap()
        }
    }
}

fn element(numbers: &mut Numbers, with_strings: bool) -> CfuaType {
    match numbers.below(if with_strings { 4 } else { 3 }) {
        0 => CfuaType::Integer(integer(numbers)),
        1 => CfuaType::Float(float(numbers)),
        2 => CfuaType::Bool(numbers.below(2) == 0),
        _ => CfuaType::String(string(numbers)),
    }
}

fn document(numbers: &mut Numbers) -> Cfua {
    let mut document = Cfua::create();
    let pairs = numbers.below(8);
    for _ in 0..pairs {
        let key = name(numbers);
        match numbers.below(7) {
            0 => document.write_section(&key),
            1 => document.write_integer(&key, integer(numbers)),
            2 => document.write_float(&key, float(numbers)),
            3 => document.write_bool(&key, numbers.below(2) == 0),
            4 => document.write_string(&key, &string(numbers)),
            _ => {
                let with_strings = numbers.below(2) == 0;
                let length = numbers.below(5);
                let items: Vec<CfuaType> =
                    (0..length).map(|_| element(numbers, with_strings)).collect();
                document.write_array(&key, items);
            }
        }
    }
    document
}

#[test]
fn generated_documents_read_back() {
    let mut numbers = Numbers { state: 2024 };
    for _ in 0..2000 {
        let written = document(&mut numbers);
        assert!(written.can_write());
        let text = written.to_string();
        assert_eq!(Cfua::from_string(&text), Ok(written), "text: {:?}", text);
    }
}

#[test]
fn generated_texts_are_read_or_refused() {
    let alphabet = [
        'a', 'b', 'h', 'o', 'z', '0', '1', '7', '9', ' ', ' ', '\n', '\n', '\n', '\'', '#', '[',
        ']', ',', ':', ':', '@', '%', '-', '.', 'é', 't', 'r', 'u', 'e',
    ];
    let mut numbers = Numbers { state: 7 };
    let mut read = 0;
    for _ in 0..20000 {
        let length = numbers.below(14);
        let text: String = (0..length).map(|_| numbers.pick(&alphabet)).collect();
        if let Ok(document) = Cfua::from_string(&text) {
            read += 1;
            // What was read can be written, and is read again as the same.
            assert!(document.can_write());
            assert_eq!(Cfua::from_string(&document.to_string()), Ok(document), "text: {:?}", text);
        }
    }
    assert!(read > 100);
}
