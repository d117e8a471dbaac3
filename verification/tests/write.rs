use cfua::{
    Cfua, CfuaBooleanArray, CfuaError, CfuaFloat, CfuaFloatArray, CfuaIntegerArray,
    CfuaStringArray, CfuaType,
};

#[test]
fn to_string_basic() {
    let mut structure = Cfua::create();
    structure.write_integer("number-value", 1);
    structure.write_string("string-value", "Testing to_string() method");
    structure.write_float(
        "another-number",
        CfuaFloat::from_text(&(-0.123f64).to_string()).unwrap(),
    );

    let example = r"number-value: 1
string-value: 'Testing to_string() method
another-number: -0.123
"
    .to_string();
    assert_eq!(structure.to_string(), example)
}

#[test]
fn to_string_arrays() {
    let mut structure = Cfua::create();
    structure.write_array(
        "fibonacci",
        CfuaIntegerArray::new()
            .push(1)
            .push(1)
            .push(2)
            .push(3)
            .push(5)
            .push(8)
            .push(13)
            .push(21)
            .push(34)
            .push(55),
    );
    structure.write_array(
        "fruits",
        CfuaStringArray::new()
            .push("Apple".to_string())
            .push("Banana".to_string())
            .push("Lemon".to_string()),
    );
    structure.write_array(
        "split-array",
        CfuaStringArray::new().push("multi\nline".to_string()).push("single line".to_string()),
    );

    let example = r"fibonacci: [1, 1, 2, 3, 5, 8, 13, 21, 34, 55]
fruits: [
#'Apple
#'Banana
#'Lemon
]
split-array: [
#'multi
'line
#'single line
]
"
    .to_string();
    assert_eq!(structure.to_string(), example)
}

#[test]
fn to_string_of_every_kind() {
    let mut data = Cfua::create();
    data.write_section("general");
    data.write_integer("low", i64::MIN);
    data.write_integer("zero", 0);
    data.write_bool("yes", true);
    data.write_bool("no", false);
    data.write_float("nothing", CfuaFloat::nan());
    data.write_float("far", CfuaFloat::infinity());
    data.write_float("near", CfuaFloat::neg_infinity());
    data.write_string("empty", "");
    data.write_string("lines", "a\n\nb\n");
    data.write_array("none", CfuaIntegerArray::new());
    data.write_array("flags", CfuaBooleanArray::new().push(true).push(false));
    data.write_array(
        "ratios",
        CfuaFloatArray::new().push(CfuaFloat::from_text("1.5").unwrap()).push(CfuaFloat::nan()),
    );
    data.write_array(
        "mixed",
        vec![CfuaType::Integer(1), CfuaType::String("two".to_string()), CfuaType::Bool(true)],
    );
    let expected = "@general\n\
low: -9223372036854775808\n\
zero: 0\n\
yes: true\n\
no: false\n\
nothing: nan\n\
far: inf\n\
near: -inf\n\
empty: '\n\
lines: 'a\n'\n'b\n'\n\
none: []\n\
flags: [true, false]\n\
ratios: [1.5, nan]\n\
mixed: [\n#1\n#'two\n#true\n]\n";
    assert!(data.can_write());
    assert_eq!(data.to_string(), expected);
}

#[test]
fn empty_document_is_empty_text() {
    assert_eq!(Cfua::create().to_string(), "");
}

#[test]
fn written_text_reads_back() {
    let mut data = Cfua::create();
    data.write_section("general");
    data.write_integer("low", i64::MIN);
    data.write_integer("high", i64::MAX);
    data.write_bool("yes", true);
    data.write_float("nothing", CfuaFloat::nan());
    data.write_float("near", CfuaFloat::neg_infinity());
    data.write_float("ratio", CfuaFloat::from_text("-12.0625").unwrap());
    data.write_string("empty", "");
    data.write_string("lines", "a\n\n'b # ] [ , \n");
    data.write_string("dup", "  spaces at both ends  ");
    data.write_integer("dup", 2);
    data.write_section("general");
    data.write_array("none", CfuaIntegerArray::new());
    data.write_array("one", CfuaIntegerArray::new().push(-1));
    data.write_array("flags", CfuaBooleanArray::new().push(true).push(false));
    data.write_array(
        "words",
        CfuaStringArray::new()
            .push(String::new())
            .push("]".to_string())
            .push("#x\n'y\n".to_string()),
    );
    data.write_array(
        "mixed",
        vec![
            CfuaType::Integer(1),
            CfuaType::String("two".to_string()),
            CfuaType::Float(CfuaFloat::infinity()),
            CfuaType::Bool(false),
        ],
    );
    data.write_string("last", "open at the end");

    assert!(data.can_write());
    let text = data.to_string();
    assert_eq!(Cfua::from_string(&text), Ok(data));
}

#[test]
fn nested_array_cannot_be_written() {
    let mut data = Cfua::create();
    data.write_array("flat", vec![CfuaType::Integer(1)]);
    assert!(data.can_write());
    data.write_array("deep", vec![CfuaType::Array(vec![CfuaType::Integer(1)])]);
    assert!(!data.can_write());

    let mut other = Cfua::create();
    other.write_array("marker", vec![CfuaType::Section(())]);
    assert!(!other.can_write());
}

#[test]
fn error_messages() {
    assert_eq!(CfuaError::EmptyValue.to_string(), "value must not be empty");
    assert_eq!(CfuaError::NonGraphicChar.to_string(), "non-garphic char");
    assert_eq!(CfuaError::InvalidChar.to_string(), "invalid syntax");
    assert_eq!(CfuaError::InvalidKeyChar('?').to_string(), "invalid char: '?' in key name");
    assert_eq!(
        CfuaError::InvalidHyphenInKey.to_string(),
        "hyphen not allowed at the beginning of key name"
    );
    assert_eq!(
        CfuaError::InvalidSectionChar('!').to_string(),
        "invalid char: '!' in section name"
    );
    assert_eq!(
        CfuaError::InvalidHyphenInSection.to_string(),
        "hyphen not allowed at the beginning of section name"
    );
    assert_eq!(
        CfuaError::UnknownKeyword("maybe".to_string()).to_string(),
        "unknown keyword: 'maybe'"
    );
    assert_eq!(CfuaError::NestedArray.to_string(), "nested arrays are not allowed");
    assert_eq!(CfuaError::MixedArrayType.to_string(), "array type is ambiguous");
    assert_eq!(
        CfuaError::MixedArrayDecl.to_string(),
        "mixed comma-based and hash-based array declatation"
    );
    assert_eq!(
        CfuaError::StringInSimpleArray.to_string(),
        "string value in simple array declaration"
    );
    assert_eq!(
        CfuaError::InvalidArrayValue("1x".to_string()).to_string(),
        "invalid array element: '1x'"
    );
    assert_eq!(CfuaError::IoError("no such file".to_string()).to_string(), "io error: no such file");
}
