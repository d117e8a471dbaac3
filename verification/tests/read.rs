use cfua::{Cfua, CfuaError, CfuaFloat, CfuaIntegerArray, CfuaStringArray, CfuaType, ParserData};

#[test]
fn from_string_basic() {
    let example = r"number-value: 1
string-value: 'Testing from_string() method
another-number: -0.123
";
    let mut structure = Cfua::create();
    structure.write_integer("number-value", 1);
    structure.write_string("string-value", "Testing from_string() method");
    structure.write_float(
        "another-number",
        CfuaFloat::from_text(&(-0.123f64).to_string()).unwrap(),
    );

    assert_eq!(Cfua::from_string(example).unwrap(), structure);
}

#[test]
fn from_string_advanced() {
    let example = r"fibonacci: [1, 1, 2, 3, 5, 8, 13, 21, 34, 55]
multiline: 'First Line
'Second Line
'Third Line
strings-array: [
    #'String 1
    #'String 2.1
     'String 2.2
    #'String 3        
]
special-number: -inf
par1: head
par: 'head
x:-o7
apostrophes: '''''''
";
    let mut structure = Cfua::create();
    structure.write_array(
        "fibonacci",
        CfuaIntegerArray::new()
            .push(1)
            .push(1)
            .push(2)
            .push(3)
            .push(5)
            .push(8)
            .push(13)
            .push(21)
            .push(34)
            .push(55),
    );
    structure.write_string("multiline", "First Line\nSecond Line\nThird Line");
    structure.write_array(
        "strings-array",
        CfuaStringArray::new()
            .push("String 1".to_string())
            .push("String 2.1\nString 2.2".to_string())
            .push("String 3        ".to_string()),
    );
    structure.write_float("special-number", CfuaFloat::neg_infinity());
    structure.write_integer("par-one", 0xead);
    structure.write_string("par", "head");
    structure.write_integer("x", -0o7);
    structure.write_string("apostrophes", "''''''");

    // A key holds lower-case letters and hyphens: the digit of `par1` is
    // refused.
    assert_eq!(Cfua::from_string(example), Err(CfuaError::InvalidKeyChar('1')));
    // With that key spelled in letters the text is read in full. A string
    // keeps the spaces at the end of its line.
    let spelled = example.replace("par1", "par-one");
    assert_eq!(Cfua::from_string(&spelled).unwrap(), structure);
}

#[test]
fn integer_radix_markers() {
    let data = Cfua::from_string("a: head\nb: -o7\nc: -123\nd: b101\ne: 0\n").unwrap();
    assert_eq!(data.read_integer("a"), Some(0xead));
    assert_eq!(data.read_integer("a"), Some(3757));
    assert_eq!(data.read_integer("b"), Some(-7));
    assert_eq!(data.read_integer("c"), Some(-123));
    assert_eq!(data.read_integer("d"), Some(5));
    assert_eq!(data.read_integer("e"), Some(0));
}

#[test]
fn integer_limits() {
    let data = Cfua::from_string(
        "low: -9223372036854775808\nhigh: 9223372036854775807\nhex: -h8000000000000000\n",
    )
    .unwrap();
    assert_eq!(data.read_integer("low"), Some(i64::MIN));
    assert_eq!(data.read_integer("high"), Some(i64::MAX));
    assert_eq!(data.read_integer("hex"), Some(i64::MIN));
    assert_eq!(
        Cfua::from_string("over: 9223372036854775808\n"),
        Err(CfuaError::UnknownKeyword("9223372036854775808".to_string()))
    );
}

#[test]
fn only_the_first_marker_is_taken_out() {
    // `bb1` is the binary literal of the digits `b1`, and `b` is no binary
    // digit.
    assert_eq!(
        Cfua::from_string("x: bb1\n"),
        Err(CfuaError::UnknownKeyword("bb1".to_string()))
    );
    // `hb` is the hexadecimal literal of the digit `b`.
    assert_eq!(Cfua::from_string("x: hb\n").unwrap().read_integer("x"), Some(11));
}

#[test]
fn float_specials() {
    let data = Cfua::from_string("a: nan\nb: inf\nc: -inf\nd: -0.123\n").unwrap();
    let a = data.read_float("a").unwrap();
    assert!(a.is_nan());
    assert_eq!(a, CfuaFloat::nan());
    assert!(a.text().parse::<f64>().unwrap().is_nan());
    let b = data.read_float("b").unwrap();
    assert_eq!(b, CfuaFloat::infinity());
    assert_eq!(b.text().parse::<f64>().unwrap(), f64::INFINITY);
    let c = data.read_float("c").unwrap();
    assert_eq!(c, CfuaFloat::neg_infinity());
    assert_eq!(c.text().parse::<f64>().unwrap(), f64::NEG_INFINITY);
    let d = data.read_float("d").unwrap();
    assert!(!d.is_nan());
    assert_eq!(d.text(), "-0.123");
    assert_eq!(d.text().parse::<f64>().unwrap(), -0.123);
}

#[test]
fn multi_line_string() {
    let data = Cfua::from_string("text: 'First Line\n'Second Line\n'Third Line\n").unwrap();
    assert_eq!(
        data.get_all(),
        vec![(
            "text".to_string(),
            CfuaType::String("First Line\nSecond Line\nThird Line".to_string())
        )]
    );
}

#[test]
fn string_continues_behind_a_comment_and_a_blank_line() {
    let data = Cfua::from_string("text: 'one\n% a remark\n\n'two\nnext: 1\n").unwrap();
    assert_eq!(data.read_string("text"), Some("one\ntwo".to_string()));
    assert_eq!(data.read_integer("next"), Some(1));
}

#[test]
fn empty_string_is_kept() {
    let data = Cfua::from_string("a: '\nb: 1\n").unwrap();
    assert_eq!(
        data.get_all(),
        vec![
            ("a".to_string(), CfuaType::String(String::new())),
            ("b".to_string(), CfuaType::Integer(1)),
        ]
    );
}

#[test]
fn string_before_a_section_is_completed() {
    let data = Cfua::from_string("a: 'text\n@part\nb: true\n").unwrap();
    assert_eq!(
        data.get_all(),
        vec![
            ("a".to_string(), CfuaType::String("text".to_string())),
            ("part".to_string(), CfuaType::Section(())),
            ("b".to_string(), CfuaType::Bool(true)),
        ]
    );
}

#[test]
fn stray_quote_at_line_start_is_skipped() {
    let data = Cfua::from_string("'\na: 1\n").unwrap();
    assert_eq!(data.get_all(), vec![("a".to_string(), CfuaType::Integer(1))]);
}

#[test]
fn simple_array() {
    let data = Cfua::from_string("fibonacci: [1, 1, 2, 3, 5, 8]").unwrap();
    assert_eq!(
        data.get_all(),
        vec![(
            "fibonacci".to_string(),
            CfuaType::Array(vec![
                CfuaType::Integer(1),
                CfuaType::Integer(1),
                CfuaType::Integer(2),
                CfuaType::Integer(3),
                CfuaType::Integer(5),
                CfuaType::Integer(8),
            ])
        )]
    );
}

#[test]
fn simple_array_of_every_token_kind() {
    let data = Cfua::from_string("list: [true, false, -h1f, 2.50, nan, -inf,\n  o17]\n").unwrap();
    assert_eq!(
        data.read_array("list"),
        Some(vec![
            CfuaType::Bool(true),
            CfuaType::Bool(false),
            CfuaType::Integer(-31),
            CfuaType::Float(CfuaFloat::from_text("2.50").unwrap()),
            CfuaType::Float(CfuaFloat::nan()),
            CfuaType::Float(CfuaFloat::neg_infinity()),
            CfuaType::Integer(15),
        ])
    );
}

#[test]
fn empty_array() {
    let data = Cfua::from_string("a: []\nb: [  ]\nc: [\n]\nd: [#\n]\n").unwrap();
    assert_eq!(data.read_array("a"), Some(Vec::new()));
    assert_eq!(data.read_array("b"), Some(Vec::new()));
    assert_eq!(data.read_array("c"), Some(Vec::new()));
    assert_eq!(data.read_array("d"), Some(Vec::new()));
}

#[test]
fn hash_array_with_strings() {
    let data =
        Cfua::from_string("list: [\n#'String 1\n#'String 2.1\n'String 2.2\n#'String 3\n]\n")
            .unwrap();
    assert_eq!(
        data.get_all(),
        vec![(
            "list".to_string(),
            CfuaType::Array(vec![
                CfuaType::String("String 1".to_string()),
                CfuaType::String("String 2.1\nString 2.2".to_string()),
                CfuaType::String("String 3".to_string()),
            ])
        )]
    );
}

#[test]
fn hash_array_with_tokens_and_strings() {
    let data = Cfua::from_string("list: [\n  #12\n  #'text\n  #true\n  #-0.5\n#'\n]\n").unwrap();
    assert_eq!(
        data.read_array("list"),
        Some(vec![
            CfuaType::Integer(12),
            CfuaType::String("text".to_string()),
            CfuaType::Bool(true),
            CfuaType::Float(CfuaFloat::from_text("-0.5").unwrap()),
            CfuaType::String(String::new()),
        ])
    );
}

#[test]
fn string_may_follow_comma_elements() {
    let data = Cfua::from_string("list: [1, 2, 'three\n]\n").unwrap();
    assert_eq!(
        data.read_array("list"),
        Some(vec![
            CfuaType::Integer(1),
            CfuaType::Integer(2),
            CfuaType::String("three".to_string()),
        ])
    );
}

#[test]
fn sections_and_comments() {
    let data = Cfua::from_string("% heading\n@general\nname: 'x\n\n@other-part\n% end").unwrap();
    assert_eq!(
        data.get_all(),
        vec![
            ("general".to_string(), CfuaType::Section(())),
            ("name".to_string(), CfuaType::String("x".to_string())),
            ("other-part".to_string(), CfuaType::Section(())),
        ]
    );
}

#[test]
fn leading_hyphen_in_key_is_an_error() {
    assert_eq!(Cfua::from_string("a-b: 1\n"), Err(CfuaError::InvalidHyphenInKey));
    assert_eq!(Cfua::from_string("a: 1\nx-: 2\n"), Err(CfuaError::InvalidHyphenInKey));
    // From the third character on a hyphen may stand.
    assert_eq!(Cfua::from_string("ab-c: 1\n").unwrap().read_integer("ab-c"), Some(1));
    assert_eq!(Cfua::from_string("ab--: 1\n").unwrap().read_integer("ab--"), Some(1));
    // A line cannot begin with a hyphen at all.
    assert_eq!(Cfua::from_string("-ab: 1\n"), Err(CfuaError::InvalidChar));
}

#[test]
fn every_scanning_error() {
    assert_eq!(Cfua::from_string("key"), Err(CfuaError::EmptyValue));
    assert_eq!(Cfua::from_string("key:  "), Err(CfuaError::EmptyValue));
    assert_eq!(Cfua::from_string("key:\n"), Err(CfuaError::NonGraphicChar));
    assert_eq!(Cfua::from_string("key: \t1\n"), Err(CfuaError::NonGraphicChar));
    assert_eq!(Cfua::from_string("key: \u{e9}\n"), Err(CfuaError::NonGraphicChar));
    assert_eq!(Cfua::from_string(" key: 1\n"), Err(CfuaError::InvalidChar));
    assert_eq!(Cfua::from_string("Key: 1\n"), Err(CfuaError::InvalidChar));
    assert_eq!(Cfua::from_string("a: [1, 2] x\n"), Err(CfuaError::InvalidChar));
    assert_eq!(Cfua::from_string("a: [1, ]\n"), Err(CfuaError::InvalidChar));
    assert_eq!(Cfua::from_string("a: [, 1]\n"), Err(CfuaError::InvalidChar));
    assert_eq!(Cfua::from_string("a: [\n#'x\n1\n]\n"), Err(CfuaError::InvalidChar));
    assert_eq!(Cfua::from_string("a: [\t1]\n"), Err(CfuaError::InvalidChar));
    assert_eq!(Cfua::from_string("ke y: 1\n"), Err(CfuaError::InvalidKeyChar(' ')));
    assert_eq!(Cfua::from_string("keY: 1\n"), Err(CfuaError::InvalidKeyChar('Y')));
    assert_eq!(Cfua::from_string("key\n"), Err(CfuaError::InvalidKeyChar('\n')));
    assert_eq!(Cfua::from_string("a-: 1\n"), Err(CfuaError::InvalidHyphenInKey));
    assert_eq!(Cfua::from_string("@na me\n"), Err(CfuaError::InvalidSectionChar(' ')));
    assert_eq!(Cfua::from_string("@\n"), Err(CfuaError::InvalidSectionChar('\n')));
    assert_eq!(Cfua::from_string("@-a\n"), Err(CfuaError::InvalidHyphenInSection));
    assert_eq!(Cfua::from_string("@a-\n"), Err(CfuaError::InvalidHyphenInSection));
    assert_eq!(
        Cfua::from_string("a: maybe\n"),
        Err(CfuaError::UnknownKeyword("maybe".to_string()))
    );
    assert_eq!(Cfua::from_string("a: 12 \n"), Err(CfuaError::UnknownKeyword("12 ".to_string())));
    assert_eq!(Cfua::from_string("a: -\n"), Err(CfuaError::UnknownKeyword("-".to_string())));
    assert_eq!(Cfua::from_string("a: 1.\n"), Err(CfuaError::UnknownKeyword("1.".to_string())));
    assert_eq!(Cfua::from_string("a: h\n"), Err(CfuaError::UnknownKeyword("h".to_string())));
    assert_eq!(Cfua::from_string("a: NaN\n"), Err(CfuaError::UnknownKeyword("NaN".to_string())));
    assert_eq!(Cfua::from_string("a: [[1]]\n"), Err(CfuaError::NestedArray));
    assert_eq!(Cfua::from_string("a: [1, [2]]\n"), Err(CfuaError::NestedArray));
    assert_eq!(Cfua::from_string("a: [\n#1\n#[\n]\n"), Err(CfuaError::NestedArray));
    assert_eq!(Cfua::from_string("a: [1, #2\n]\n"), Err(CfuaError::MixedArrayDecl));
    assert_eq!(
        Cfua::from_string("a: [1x, 2]\n"),
        Err(CfuaError::InvalidArrayValue("1x".to_string()))
    );
    assert_eq!(
        Cfua::from_string("a: [1 , 2]\n"),
        Err(CfuaError::InvalidArrayValue("1 ".to_string()))
    );
    assert_eq!(
        Cfua::from_string("a: [\n#maybe\n]\n"),
        Err(CfuaError::InvalidArrayValue("maybe".to_string()))
    );
}

#[test]
fn the_first_error_is_reported() {
    assert_eq!(Cfua::from_string("a: maybe\nB: 1\n"), Err(CfuaError::UnknownKeyword("maybe".to_string())));
    assert_eq!(Cfua::from_string("B: 1\na: maybe\n"), Err(CfuaError::InvalidChar));
}

#[test]
fn text_may_end_behind_a_value() {
    assert_eq!(Cfua::from_string("a: 12").unwrap().read_integer("a"), Some(12));
    assert_eq!(Cfua::from_string("a: 'open").unwrap().read_string("a"), Some("open".to_string()));
    assert_eq!(
        Cfua::from_string("@part").unwrap().get_all(),
        vec![("part".to_string(), CfuaType::Section(()))]
    );
    assert_eq!(Cfua::from_string("a: 1\n% remark").unwrap().read_integer("a"), Some(1));
    assert_eq!(Cfua::from_string("").unwrap(), Cfua::create());
    assert_eq!(
        Cfua::from_string("a: maybe"),
        Err(CfuaError::UnknownKeyword("maybe".to_string()))
    );
}

#[test]
fn text_may_not_end_inside_a_key_or_an_array() {
    assert_eq!(Cfua::from_string("a: 1\nkey"), Err(CfuaError::EmptyValue));
    assert_eq!(Cfua::from_string("key:"), Err(CfuaError::EmptyValue));
    assert_eq!(Cfua::from_string("a: [1, 2"), Err(CfuaError::InvalidChar));
    assert_eq!(Cfua::from_string("a: ["), Err(CfuaError::InvalidChar));
    assert_eq!(Cfua::from_string("a: [\n#'x\n"), Err(CfuaError::InvalidChar));
    assert_eq!(Cfua::from_string("@"), Err(CfuaError::InvalidSectionChar('\n')));
}

#[test]
fn scanner_reads_its_input() {
    let mut scanner = ParserData::new("a: 1\nb: 'x\n".to_string());
    let mut expected = Cfua::create();
    expected.write_integer("a", 1);
    expected.write_string("b", "x");
    assert_eq!(scanner.parse(), Ok(expected));
}

#[test]
fn scanner_can_be_fed_by_hand() {
    let mut scanner = ParserData::new(String::new());
    for c in "n: -5".chars() {
        assert_eq!(scanner.read_char(c), Ok(()));
    }
    assert_eq!(scanner.end_of_text(), Ok(()));
    let mut expected = Cfua::create();
    expected.write_integer("n", -5);
    assert_eq!(scanner.parse(), Ok(expected));
}

#[test]
fn scanner_stays_where_an_error_found_it() {
    let mut scanner = ParserData::new(String::new());
    for c in "ab".chars() {
        assert_eq!(scanner.read_char(c), Ok(()));
    }
    assert_eq!(scanner.read_char('!'), Err(CfuaError::InvalidKeyChar('!')));
    // The key is still `ab`, and the scan can go on.
    for c in "c: 1\n".chars() {
        assert_eq!(scanner.read_char(c), Ok(()));
    }
    let mut expected = Cfua::create();
    expected.write_integer("abc", 1);
    assert_eq!(scanner.parse(), Ok(expected));
}

#[test]
fn hash_style_details() {
    // `#` may be repeated and may stand alone; spaces before an element
    // are skipped.
    let data = Cfua::from_string("a: [\n##  1\n#\n  #\t2\n]\n");
    assert_eq!(data, Err(CfuaError::InvalidChar));
    let data = Cfua::from_string("a: [\n##  1\n#\n  # 2\n]\n").unwrap();
    assert_eq!(data.read_array("a"), Some(vec![CfuaType::Integer(1), CfuaType::Integer(2)]));
    // A token ends with its line or with the closing bracket.
    let data = Cfua::from_string("a: [#1\n#2]\n").unwrap();
    assert_eq!(data.read_array("a"), Some(vec![CfuaType::Integer(1), CfuaType::Integer(2)]));
    // A string element may begin the array without a `#`.
    let data = Cfua::from_string("a: ['x\n'y\n#'z\n]\n").unwrap();
    assert_eq!(
        data.read_array("a"),
        Some(vec![CfuaType::String("x\ny".to_string()), CfuaType::String("z".to_string())])
    );
    // Behind a line of a string element no blank line may stand.
    assert_eq!(Cfua::from_string("a: [\n#'x\n\n]\n"), Err(CfuaError::InvalidChar));
    // The characters of the syntax stand for themselves inside a string.
    let data = Cfua::from_string("a: [\n#'], #[ '\n]\n").unwrap();
    assert_eq!(data.read_array("a"), Some(vec![CfuaType::String("], #[ '".to_string())]));
}

#[test]
fn value_details() {
    assert_eq!(
        Cfua::from_string("a: 1 2\n"),
        Err(CfuaError::UnknownKeyword("1 2".to_string()))
    );
    assert_eq!(
        Cfua::from_string("a: 1.5e3\n"),
        Err(CfuaError::UnknownKeyword("1.5e3".to_string()))
    );
    assert_eq!(
        Cfua::from_string("a: 1 % no comment here\n"),
        Err(CfuaError::UnknownKeyword("1 % no comment here".to_string()))
    );
    let data = Cfua::from_string("a:1\nb:    'x \nc:[1,2]\n").unwrap();
    assert_eq!(data.read_integer("a"), Some(1));
    assert_eq!(data.read_string("b"), Some("x ".to_string()));
    assert_eq!(data.read_array("c"), Some(vec![CfuaType::Integer(1), CfuaType::Integer(2)]));
    // A string may hold any character but the newline on one line.
    let data = Cfua::from_string("s: '\t\u{e9}\u{1f642} ' [ # % @\n").unwrap();
    assert_eq!(data.read_string("s"), Some("\t\u{e9}\u{1f642} ' [ # % @".to_string()));
}

#[test]
fn comments_and_blank_lines_change_nothing() {
    let plain = Cfua::from_string("a: 1\nb: 'x\n'y\nc: [1, 2]\n").unwrap();
    let dressed = Cfua::from_string(
        "% first\n\na: 1\n%\n\n\nb: 'x\n% inside a string\n\n'y\n% [ ' # @\nc: [1, 2]\n\n% last",
    )
    .unwrap();
    assert_eq!(dressed, plain);
}
