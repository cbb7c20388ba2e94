//! Texts, JSON values and their order.
use log_inbox::json::{json_of_number, parse_json, Json};
use log_inbox::ordered::{ordered_set_of, str_less};
use log_inbox::text::{
    bounded_prefix, decimal_text, join, replace, split_full_lines, split_lines, split_once,
    split_words, trim,
};

fn texts(items: &[&str]) -> Vec<String> {
    items.iter().map(|text| text.to_string()).collect()
}

#[test]
fn texts_are_cut_at_characters() {
    assert_eq!(bounded_prefix("aé", 2), ("a".to_owned(), false));
    assert_eq!(bounded_prefix("aé", 3), ("aé".to_owned(), true));
    assert_eq!(bounded_prefix("", 0), (String::new(), true));
}

#[test]
fn texts_are_split_and_joined() {
    assert_eq!(trim("\u{a0} a b \n"), "a b");
    assert_eq!(split_full_lines("a\nb"), ["a\n", "b"]);
    assert_eq!(split_lines("a\r\nb\n"), ["a", "b"]);
    assert_eq!(split_words(" a  b\u{2003}c"), ["a", "b", "c"]);
    assert_eq!(split_once("a==b==c", "=="), Some(("a".to_owned(), "b==c".to_owned())));
    assert_eq!(join(&texts(&["a", "b"]), ", "), "a, b");
    assert_eq!(replace("aXbX", "X", "--"), "a--b--");
    assert_eq!(decimal_text(u64::MAX), u64::MAX.to_string());
}

#[test]
fn sets_of_texts_are_in_order() {
    assert_eq!(ordered_set_of(&texts(&["b", "a", "b", "é", "B"])), ["B", "a", "b", "é"]);
    assert!(str_less("a", "ab"));
    assert!(!str_less("b", "ab"));
}

#[test]
fn json_values_are_read_and_written() {
    let value = parse_json("{\"b\":[1,-2,true,null],\"a\":\"x\\ny\"}").unwrap();
    assert_eq!(value.to_text(), "{\"a\":\"x\\ny\",\"b\":[1,-2,true,null]}");
    assert_eq!(
        value.to_pretty_text(),
        "{\n  \"a\": \"x\\ny\",\n  \"b\": [\n    1,\n    -2,\n    true,\n    null\n  ]\n}"
    );
    let list = value.get_list("b").unwrap();
    assert_eq!(list[0].as_u64(), Some(1));
    assert_eq!(list[1].as_i64(), Some(-2));
    assert_eq!(list[1].as_u64(), None);
    assert_eq!(list[2].as_i64(), None);
    assert_eq!(parse_json("18446744073709551615").unwrap().as_i64(), None);
    assert_eq!(parse_json("1.0").unwrap().as_u64(), None);
    assert_eq!(json_of_number(7), Json::Number(serde_json::Number::from(7u64)));
    assert!(parse_json("{").is_err());
    assert_eq!(value.get_text("a"), Some("x\ny"));
    assert_eq!(value.copy().to_text(), value.to_text());
}
