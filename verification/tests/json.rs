use dontspeak::index_set::IndexSet;
use dontspeak::json::{read_object, write_object, write_signed, Json};

#[test]
fn members_are_read_in_order_and_with_repetitions() {
    assert_eq!(
        read_object(r#"{"b":1,"a":"x","b":[{"c":2}],"d":{"e":null}}"#),
        Some(vec![
            ("b".into(), Json::Unsigned(1)),
            ("a".into(), Json::Text("x".into())),
            ("b".into(), Json::Array(r#"[{"c":2}]"#.into())),
            ("d".into(), Json::Object(r#"{"e":null}"#.into())),
        ])
    );
    assert_eq!(read_object("{}"), Some(vec![]));
    assert_eq!(read_object("[]"), None);
    assert_eq!(read_object("{"), None);
}

#[test]
fn punctuation_in_strings_is_no_structure() {
    assert_eq!(
        read_object("{\"a:{}\\\"\":\"}]\\\\\",\"{\":\":\"}"),
        Some(vec![
            ("a:{}\"".into(), Json::Text("}]\\".into())),
            ("{".into(), Json::Text(":".into())),
        ])
    );
}

#[test]
fn written_members_are_read_back() {
    let members = vec![
        ("k\n".to_string(), Json::Text("\"".into())),
        ("n".to_string(), Json::Unsigned(18446744073709551615)),
        ("t".to_string(), Json::Bool(true)),
        ("z".to_string(), Json::Null),
    ];
    let text = write_object(&members);
    assert_eq!(
        text,
        "{\"k\\n\":\"\\\"\",\"n\":18446744073709551615,\"t\":true,\"z\":null}"
    );
    assert_eq!(read_object(&text), Some(members));
}

#[test]
fn values_are_written_in_compact_form() {
    assert_eq!(Json::Null.to_text(), "null");
    assert_eq!(Json::Bool(false).to_text(), "false");
    assert_eq!(Json::Unsigned(7).to_text(), "7");
    assert_eq!(Json::Signed(-7).to_text(), "-7");
    assert_eq!(Json::Float("1.5".into()).to_text(), "1.5");
    assert_eq!(Json::Text("a\"".into()).to_text(), "\"a\\\"\"");
    assert_eq!(Json::Array("[1]".into()).to_text(), "[1]");
    assert_eq!(write_signed(i64::MIN), "-9223372036854775808");
    assert_eq!(write_signed(12), "12");
}

#[test]
fn an_index_set_keeps_its_order() {
    let mut set = IndexSet::new();
    for ix in [5, 1, 9, 5, 0] {
        set.insert(ix);
    }
    assert_eq!(set.indices(), &vec![0, 1, 5, 9]);
    assert!(set.contains(9));
    assert!(!set.contains(2));
    set.remove(5);
    set.remove(4);
    assert_eq!(set.indices(), &vec![0, 1, 9]);
}
