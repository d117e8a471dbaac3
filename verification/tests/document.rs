use cfua::{Cfua, CfuaFloat, CfuaIntegerArray, CfuaStringArray, CfuaType};

#[test]
fn basic_structure() {
    let mut data = Cfua::create();
    data.write_bool("is-cfua", true);
    data.write_string("purpose", "Testing builder functions");

    let mut map: Vec<(String, CfuaType)> = Vec::with_capacity(2);
    map.push(("is-cfua".to_string(), CfuaType::Bool(true)));
    map.push(("purpose".to_string(), CfuaType::String("Testing builder functions".to_string())));

    assert_eq!(data.get_all(), map);
}

#[test]
fn empty_document_has_no_pairs() {
    let data = Cfua::create();
    assert_eq!(data.len(), 0);
    assert_eq!(data.get_all(), Vec::new());
    assert_eq!(data.read_integer("anything"), None);
}

#[test]
fn pairs_keep_insertion_order_with_duplicate_keys() {
    let mut data = Cfua::create();
    data.write_integer("b", 2);
    data.write_section("part");
    data.write_integer("a", 1);
    data.write_string("b", "again");
    data.write_integer("b", 3);

    let all = data.get_all();
    assert_eq!(
        all,
        vec![
            ("b".to_string(), CfuaType::Integer(2)),
            ("part".to_string(), CfuaType::Section(())),
            ("a".to_string(), CfuaType::Integer(1)),
            ("b".to_string(), CfuaType::String("again".to_string())),
            ("b".to_string(), CfuaType::Integer(3)),
        ]
    );
    assert_eq!(data.len(), 5);
}

#[test]
fn lookup_takes_the_first_pair_of_the_key() {
    let mut data = Cfua::create();
    data.write_integer("n", 7);
    data.write_integer("n", 8);
    data.write_string("s", "first");
    data.write_string("s", "second");
    assert_eq!(data.read_integer("n"), Some(7));
    assert_eq!(data.read_string("s"), Some("first".to_string()));
}

#[test]
fn lookup_of_another_type_finds_nothing() {
    let mut data = Cfua::create();
    data.write_string("k", "text");
    data.write_integer("k", 5);
    data.write_bool("flag", false);
    data.write_float("ratio", CfuaFloat::from_text("0.5").unwrap());
    data.write_array("list", CfuaIntegerArray::new().push(1));
    data.write_section("part");

    // The first pair under `k` is a string, so no integer is found there.
    assert_eq!(data.read_integer("k"), None);
    assert_eq!(data.read_string("k"), Some("text".to_string()));
    assert_eq!(data.read_bool("k"), None);
    assert_eq!(data.read_float("k"), None);
    assert_eq!(data.read_array("k"), None);

    assert_eq!(data.read_bool("flag"), Some(false));
    assert_eq!(data.read_integer("flag"), None);
    assert_eq!(data.read_float("ratio").map(|f| f.text()), Some("0.5".to_string()));
    assert_eq!(data.read_string("ratio"), None);
    assert_eq!(data.read_array("list"), Some(vec![CfuaType::Integer(1)]));
    assert_eq!(data.read_integer("list"), None);
    assert_eq!(data.read_string("part"), None);
    assert_eq!(data.read_integer("absent"), None);
    assert_eq!(data.read_array("absent"), None);
}

#[test]
fn builders_collect_their_elements_in_order() {
    let mut data = Cfua::create();
    data.write_array("numbers", CfuaIntegerArray::new().push(3).push(1).push(2));
    data.write_array(
        "words",
        CfuaStringArray::new().push("x".to_string()).push("y".to_string()),
    );
    data.write_array("mixed", vec![CfuaType::Bool(true), CfuaType::Integer(4)]);
    assert_eq!(
        data.read_array("numbers"),
        Some(vec![CfuaType::Integer(3), CfuaType::Integer(1), CfuaType::Integer(2)])
    );
    assert_eq!(
        data.read_array("words"),
        Some(vec![CfuaType::String("x".to_string()), CfuaType::String("y".to_string())])
    );
    assert_eq!(
        data.read_array("mixed"),
        Some(vec![CfuaType::Bool(true), CfuaType::Integer(4)])
    );
}

#[test]
fn clone_is_equal() {
    let mut data = Cfua::create();
    data.write_integer("a", 1);
    data.write_array("list", CfuaStringArray::new().push("x\ny".to_string()));
    let copy = data.clone();
    assert_eq!(copy, data);
    assert_eq!(copy.get_all(), data.get_all());
}

#[test]
fn documents_are_equal_by_their_pairs() {
    let mut a = Cfua::create();
    a.write_integer("x", 1);
    a.write_string("y", "text");
    a.write_array("z", vec![CfuaType::Integer(1), CfuaType::String("s".to_string())]);

    let mut b = Cfua::create();
    b.write_integer("x", 1);
    b.write_string("y", "text");
    b.write_array("z", vec![CfuaType::Integer(1), CfuaType::String("s".to_string())]);
    assert_eq!(a, b);

    // Another order, another value, another key, one pair more.
    let mut c = Cfua::create();
    c.write_string("y", "text");
    c.write_integer("x", 1);
    c.write_array("z", vec![CfuaType::Integer(1), CfuaType::String("s".to_string())]);
    assert_ne!(a, c);

    let mut d = Cfua::create();
    d.write_integer("x", 1);
    d.write_string("y", "text");
    d.write_array("z", vec![CfuaType::Integer(1), CfuaType::String("t".to_string())]);
    assert_ne!(a, d);

    let mut e = Cfua::create();
    e.write_integer("w", 1);
    e.write_string("y", "text");
    e.write_array("z", vec![CfuaType::Integer(1), CfuaType::String("s".to_string())]);
    assert_ne!(a, e);

    b.write_section("more");
    assert_ne!(a, b);
}

#[test]
fn values_are_equal_by_kind_and_content() {
    assert_eq!(CfuaType::Integer(1), CfuaType::Integer(1));
    assert_ne!(CfuaType::Integer(1), CfuaType::Integer(2));
    assert_ne!(CfuaType::Integer(1), CfuaType::Bool(true));
    assert_ne!(CfuaType::Integer(1), CfuaType::String("1".to_string()));
    assert_eq!(CfuaType::Section(()), CfuaType::Section(()));
    assert_eq!(CfuaType::Float(CfuaFloat::nan()), CfuaType::Float(CfuaFloat::nan()));
    assert_ne!(
        CfuaType::Float(CfuaFloat::from_text("1.0").unwrap()),
        CfuaType::Float(CfuaFloat::from_text("1.00").unwrap())
    );
    assert_eq!(
        CfuaType::Array(vec![CfuaType::Bool(true), CfuaType::Array(Vec::new())]),
        CfuaType::Array(vec![CfuaType::Bool(true), CfuaType::Array(Vec::new())])
    );
    assert_ne!(
        CfuaType::Array(vec![CfuaType::Bool(true)]),
        CfuaType::Array(vec![CfuaType::Bool(true), CfuaType::Bool(true)])
    );
    assert_ne!(
        CfuaType::Array(vec![CfuaType::Bool(true)]),
        CfuaType::Array(vec![CfuaType::Bool(false)])
    );
    assert_ne!(CfuaType::Array(Vec::new()), CfuaType::Section(()));
    let deep = CfuaType::Array(vec![CfuaType::Array(vec![CfuaType::String("x".to_string())])]);
    assert_eq!(deep.clone(), deep);
}
