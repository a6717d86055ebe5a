use redisjson::backwards_compat_path;
use redisjson::error::ErrorKind;
use redisjson::path::{parse_path, Segment};
use redisjson::redisjson::{Format, RedisJSON};
use redisjson::value::{Node, Number};

fn doc(text: &str) -> RedisJSON {
    RedisJSON::from_str(text, Format::JSON).unwrap()
}

fn texts(d: &RedisJSON, path: &str) -> Vec<String> {
    d.matches(path)
        .unwrap()
        .into_iter()
        .map(|n| RedisJSON::from_value(n.clone()).to_string("$", Format::JSON).unwrap())
        .collect()
}

#[test]
fn compat_path_keeps_rooted_path() {
    assert_eq!(backwards_compat_path("$.a.b".to_string()), "$.a.b");
    assert_eq!(backwards_compat_path("$".to_string()), "$");
}

#[test]
fn compat_path_rewrites_dot() {
    assert_eq!(backwards_compat_path(".".to_string()), "$");
}

#[test]
fn compat_path_rewrites_leading_dot() {
    assert_eq!(backwards_compat_path(".x".to_string()), "$.x");
    assert_eq!(backwards_compat_path(".x.y".to_string()), "$.x.y");
}

#[test]
fn compat_path_rewrites_bare_name() {
    assert_eq!(backwards_compat_path("x".to_string()), "$.x");
    assert_eq!(backwards_compat_path("".to_string()), "$.");
}

#[test]
fn format_names() {
    assert_eq!(Format::from_str("JSON").unwrap(), Format::JSON);
    assert_eq!(Format::from_str("BSON").unwrap(), Format::BSON);
    let e = Format::from_str("json").unwrap_err();
    assert_eq!(e.kind, ErrorKind::Parse);
    assert_eq!(e.to_string(), "ERR wrong format");
    assert!(Format::from_str("").is_err());
    assert!(Format::from_str("JSONX").is_err());
}

#[test]
fn parse_root() {
    assert_eq!(parse_path("$").unwrap(), vec![]);
}

#[test]
fn parse_members_and_items() {
    assert_eq!(
        parse_path("$.a.b[12].*[*]['x.y'][\"z\"]").unwrap(),
        vec![
            Segment::Key("a".to_string()),
            Segment::Key("b".to_string()),
            Segment::Index(12),
            Segment::All,
            Segment::All,
            Segment::Key("x.y".to_string()),
            Segment::Key("z".to_string()),
        ]
    );
}

#[test]
fn parse_rejects_malformed_paths() {
    for bad in ["", "a", ".a", "$.", "$a", "$..a", "$[", "$[]", "$[1", "$[x]", "$['a'", "$['a]",
        "$[-1]", "$[*", "$.a.", "$[99999999999999999999999999]"]
    {
        let e = parse_path(bad).unwrap_err();
        assert_eq!(e.kind, ErrorKind::Path, "{}", bad);
        assert_eq!(e.to_string(), "ERR malformed path");
    }
}

#[test]
fn matches_in_document_order() {
    let d = doc("{\"a\":[{\"x\":1},{\"x\":2},{\"y\":3}],\"b\":{\"x\":4}}");
    assert_eq!(texts(&d, "$.a[*].x"), vec!["1", "2"]);
    assert_eq!(texts(&d, "$.*.x"), vec!["4"]);
    assert_eq!(texts(&d, "$.a[1]"), vec!["{\"x\":2}"]);
    assert_eq!(texts(&d, "$.a[3]"), Vec::<String>::new());
    assert_eq!(texts(&d, "$.c"), Vec::<String>::new());
    assert_eq!(texts(&d, "$.*"), vec!["[{\"x\":1},{\"x\":2},{\"y\":3}]", "{\"x\":4}"]);
    assert_eq!(texts(&d, "$"), vec!["{\"a\":[{\"x\":1},{\"x\":2},{\"y\":3}],\"b\":{\"x\":4}}"]);
}

#[test]
fn index_does_not_match_member_and_key_does_not_match_item() {
    let d = doc("{\"0\":\"m\",\"a\":[\"i\"]}");
    assert_eq!(texts(&d, "$[0]"), Vec::<String>::new());
    assert_eq!(texts(&d, "$['0']"), vec!["\"m\""]);
    assert_eq!(texts(&d, "$.a.0"), Vec::<String>::new());
}

#[test]
fn get_doc_reports_missing_path() {
    let d = doc("{\"a\":1}");
    let e = d.get_doc("$.b").unwrap_err();
    assert_eq!(e.kind, ErrorKind::Path);
    assert_eq!(e.to_string(), "ERR path does not exist");
    assert_eq!(d.get_doc("$.a").unwrap(), &Node::Number(Number::PosInt(1)));
}

#[test]
fn delete_every_item_of_an_array() {
    let mut d = doc("{\"a\":[1,2,3]}");
    assert_eq!(d.delete_path("$.a[*]").unwrap(), 3);
    assert_eq!(d.to_string("$", Format::JSON).unwrap(), "{\"a\":[]}");
}

#[test]
fn delete_counts_only_non_null() {
    let mut d = doc("{\"a\":null,\"b\":[null,1,null]}");
    assert_eq!(d.delete_path("$.a").unwrap(), 0);
    assert_eq!(d.to_string("$", Format::JSON).unwrap(), "{\"b\":[null,1,null]}");
    assert_eq!(d.delete_path("$.b[*]").unwrap(), 1);
    assert_eq!(d.to_string("$", Format::JSON).unwrap(), "{\"b\":[]}");
}

#[test]
fn delete_keeps_order_of_members() {
    let mut d = doc("{\"a\":1,\"b\":2,\"c\":3,\"d\":4}");
    assert_eq!(d.delete_path("$.b").unwrap(), 1);
    assert_eq!(d.to_string("$", Format::JSON).unwrap(), "{\"a\":1,\"c\":3,\"d\":4}");
}

#[test]
fn delete_root_leaves_null() {
    let mut d = doc("{\"a\":1}");
    assert_eq!(d.delete_path("$").unwrap(), 1);
    assert_eq!(d.to_string("$", Format::JSON).unwrap(), "null");
}

#[test]
fn delete_unmatched_changes_nothing() {
    let mut d = doc("{\"a\":[1,2]}");
    assert_eq!(d.delete_path("$.a[5]").unwrap(), 0);
    assert_eq!(d.delete_path("$.x.y").unwrap(), 0);
    assert_eq!(d.to_string("$", Format::JSON).unwrap(), "{\"a\":[1,2]}");
    assert!(d.delete_path("$..a").is_err());
    assert_eq!(d.to_string("$", Format::JSON).unwrap(), "{\"a\":[1,2]}");
}

#[test]
fn add_value_appends_missing_member() {
    let mut d = doc("{\"a\":{\"x\":1},\"b\":{\"y\":2},\"c\":3}");
    let added = d.add_value("$.*.x", Node::Number(Number::PosInt(9))).unwrap();
    assert!(added);
    assert_eq!(
        d.to_string("$", Format::JSON).unwrap(),
        "{\"a\":{\"x\":1},\"b\":{\"y\":2,\"x\":9},\"c\":3}"
    );
    assert!(!d.add_value("$.*.x", Node::Null).unwrap());
    assert!(!d.add_value("$.c.x", Node::Null).unwrap());
}

#[test]
fn add_value_needs_a_member_name() {
    let mut d = doc("{\"a\":[1]}");
    let e = d.add_value("$.a[3]", Node::Null).unwrap_err();
    assert_eq!(e.kind, ErrorKind::Path);
    assert_eq!(e.to_string(), "Err: wrong static path");
    assert!(d.add_value("$", Node::Null).is_err());
    assert_eq!(d.to_string("$", Format::JSON).unwrap(), "{\"a\":[1]}");
}
