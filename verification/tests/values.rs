use arona::collections::{less, sort_ints, sort_texts, TextMap};
use arona::json::{find_member, parse_json, render_json, Json};
use arona::text::{
    contains_text, equal_ignoring_case, format_ints, i64_text, is_blank, join, lines, parse_i64,
    parse_u64, replace, split, starts_with, to_lower, trim, trim_final_feeds, u64_text,
};
use arona::yaml::{parse_yaml, render_yaml, strip_mark, Yaml, YamlTag};

fn texts(list: &[&str]) -> Vec<String> {
    list.iter().map(|text| text.to_string()).collect()
}

#[test]
fn texts_are_cut_and_put_together() {
    assert_eq!(trim(" \t 你好 \n"), "你好");
    assert_eq!(trim("\u{3000}全角\u{3000}"), "全角");
    assert!(is_blank(" \u{3000}\t") && !is_blank(" x "));
    assert!(starts_with("/单抽", "/") && !starts_with("", "/"));
    assert_eq!(split("a,,b", ','), texts(&["a", "", "b"]));
    assert_eq!(split("", ','), texts(&[""]));
    assert_eq!(join(&texts(&["a", "b", "c"]), " / "), "a / b / c");
    assert_eq!(join(&Vec::new(), " / "), "");
    assert_eq!(lines("a\r\nb\n\nc"), texts(&["a", "b", "", "c"]));
    assert_eq!(replace("a&amp;b&amp;", "&amp;", "&"), "a&b&");
    assert_eq!(trim_final_feeds("a\n\n"), "a");
    assert!(contains_text(&texts(&["a", "b"]), "b") && !contains_text(&texts(&["a"]), "A"));
}

#[test]
fn only_latin_letters_change_their_case() {
    assert_eq!(to_lower("OWNER群主"), "owner群主");
    assert_eq!(to_lower("ÄÖΣ"), "ÄÖΣ");
    assert!(equal_ignoring_case("Hello", "hELLO") && !equal_ignoring_case("hello", "help"));
}

#[test]
fn numbers_are_written_and_read() {
    for n in [0, 7, -7, 10, i64::MAX, i64::MIN] {
        assert_eq!(i64_text(n), n.to_string());
        assert_eq!(parse_i64(&i64_text(n)), Some(n));
    }
    assert_eq!(u64_text(u64::MAX), "18446744073709551615");
    assert_eq!(parse_u64("18446744073709551615"), Some(u64::MAX));
    assert_eq!(parse_u64("18446744073709551616"), None);
    assert_eq!(parse_i64("9223372036854775808"), None);
    assert_eq!(parse_i64(""), None);
    assert_eq!(parse_i64("1.5"), None);
    assert_eq!(format_ints(&vec![3, -1]), "[3, -1]");
    assert_eq!(format_ints(&Vec::new()), "[]");
}

#[test]
fn maps_keep_their_keys_in_order() {
    let mut map = TextMap::new();
    for (key, value) in [("b", 1), ("a", 2), ("群", 3), ("b", 4)] {
        map.insert(key.to_string(), value);
    }
    let listed: Vec<(&str, i32)> =
        map.entries().iter().map(|(key, value)| (key.as_str(), *value)).collect();
    assert_eq!(listed, [("a", 2), ("b", 4), ("群", 3)]);
    assert_eq!(map.get("b"), Some(&4));
    assert_eq!(map.remove("b"), Some(4));
    assert_eq!(map.remove("b"), None);
    assert_eq!(map.len(), 2);
    let place = map.find("群").expect("the key is there");
    map.replace_at(place, 9);
    assert_eq!(map.remove_at(place), ("群".to_string(), 9));
    assert!(!map.contains("群"));
    assert!(less("a", "b") && less("a", "aa") && !less("b", "a") && !less("a", "a"));
    assert_eq!(sort_ints(&vec![3, -1, 2, -1]), [-1, -1, 2, 3]);
    assert_eq!(sort_texts(&texts(&["b", "a", "群"])), texts(&["a", "b", "群"]));
}

#[test]
fn members_print_in_the_order_of_their_keys() {
    let value = Json::Object(vec![
        ("b".into(), Json::signed(1)),
        ("a".into(), Json::Array(vec![Json::Null, Json::Bool(true), Json::text("\"\n")])),
        ("b".into(), Json::unsigned(u64::MAX)),
    ]);
    let text = render_json(&value);
    assert_eq!(text, r#"{"a":[null,true,"\"\n"],"b":18446744073709551615}"#);
    let read = parse_json(&text).expect("what is printed is read");
    assert_eq!(read.get("b").map(render_json), Some("18446744073709551615".to_string()));
    assert_eq!(render_json(&read), text);
}

#[test]
fn numbers_are_read_again_before_they_print() {
    assert_eq!(render_json(&Json::Number("-7".into())), "-7");
    assert_eq!(render_json(&Json::Number("1.50".into())), "1.5");
    assert_eq!(render_json(&Json::Number("many".into())), "null");
}

#[test]
fn documents_read_back_up_to_their_depth() {
    let nested = |depth: usize| {
        let mut value = Json::Null;
        for _ in 0..depth {
            value = Json::Array(vec![value]);
        }
        render_json(&value)
    };
    assert!(parse_json(&nested(127)).is_some());
    assert!(parse_json(&nested(128)).is_none());
}

#[test]
fn members_are_found_by_their_keys() {
    let value = parse_json(r#"{"n":5,"t":"x","f":1.5,"s":null}"#).expect("the text is JSON");
    assert!(value.is_object() && value.has("s") && !value.has("z"));
    assert_eq!(value.get("n").and_then(Json::as_i64), Some(5));
    assert_eq!(value.get("f").and_then(Json::as_i64), None);
    assert_eq!(value.get_text("t"), Some("x".to_string()));
    assert_eq!(value.get_text("n"), None);
    assert_eq!(value.get_copy("s"), Some(Json::Null));
    let Json::Object(members) = &value else {
        panic!("应为对象");
    };
    assert_eq!(find_member(members, "t"), Some(&Json::text("x")));
    assert_eq!(Json::maybe_number(None), Json::Null);
    assert_eq!(render_json(&Json::object_of("k", Json::maybe_number(Some(3)))), r#"{"k":3}"#);
    assert_eq!(parse_json("{"), None);
}

#[test]
fn lists_of_numbers_are_read_strictly() {
    let ints = |text: &str| parse_yaml(text).expect("the text is YAML").as_ints();
    assert_eq!(ints("[1, -2, 9223372036854775807]"), Some(vec![1, -2, i64::MAX]));
    assert_eq!(ints("[]"), Some(Vec::new()));
    assert_eq!(ints("~"), Some(Vec::new()));
    assert_eq!(ints("[1, x]"), None);
    assert_eq!(ints("[1.5]"), None);
    assert_eq!(ints("[9223372036854775808]"), None);
    assert_eq!(ints("7"), None);
    assert_eq!(ints("!list [!n 4]"), Some(vec![4]));
}

#[test]
fn yaml_values_print_as_they_are_built() {
    let tag = YamlTag::new("kind".to_string()).expect("the name is not empty");
    assert!(YamlTag::new(String::new()).is_none());
    let value = Yaml::Mapping(vec![
        (Yaml::Text("b".into()), Yaml::Number("7".into())),
        (Yaml::Text("a".into()), Yaml::Tagged(tag, Box::new(Yaml::Bool(true)))),
        (Yaml::Text("c".into()), Yaml::Number("many".into())),
    ]);
    assert_eq!(render_yaml(&value), Some("b: 7\na: !kind true\nc: null\n".to_string()));
    let read = parse_yaml("b: 7\na: !kind true\n").expect("the text is YAML");
    assert_eq!(read.get("a").map(|value| value.untag() == &Yaml::Bool(true)), Some(true));
    assert_eq!(read.as_mapping().map(|entries| entries.len()), Some(2));
    assert_eq!(read.get("c"), None);
    assert_eq!(strip_mark("\u{feff}a"), "a");
    assert_eq!(strip_mark("a\u{feff}"), "a\u{feff}");
}
