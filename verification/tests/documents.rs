use redisjson::commands::{
    json_arr_index, json_arr_insert, json_arr_pop, json_arr_trim, json_del, json_get, json_mget,
    json_num_op, json_num_targets, json_obj_keys, json_obj_len, json_set, json_str_append,
    json_str_len, json_type,
};
use redisjson::error::ErrorKind;
use redisjson::ops::NumResult;
use redisjson::redisjson::{
    json_rdb_load, json_rdb_save, Format, RedisJSON, SetOptions, Stored,
    JSON_TYPE_ENCODING_VERSION,
};
use redisjson::value::{Node, Number};

fn slot(text: &str) -> Option<RedisJSON> {
    Some(RedisJSON::from_str(text, Format::JSON).unwrap())
}

fn root(slot: &Option<RedisJSON>) -> String {
    json_get(slot.as_ref(), "$".to_string()).unwrap().unwrap()
}

#[test]
fn set_root_then_get_root_gives_serialized_value() {
    for text in ["null", "true", "12", "-3", "1.5", "\"s\"", "[1,[2],{\"a\":null}]",
        "{\"b\":1,\"a\":{\"z\":[],\"y\":\"\"}}"]
    {
        let mut s: Option<RedisJSON> = None;
        assert!(json_set(&mut s, "$".to_string(), text, None, Format::JSON).unwrap());
        assert_eq!(root(&s), text);
        assert!(json_set(&mut s, ".".to_string(), "[0]", None, Format::JSON).unwrap());
        assert_eq!(root(&s), "[0]");
    }
}

#[test]
fn parse_str_reports_malformed_json() {
    let e = RedisJSON::parse_str("{\"a\":", Format::JSON).unwrap_err();
    assert_eq!(e.kind, ErrorKind::Parse);
    assert!(e.to_string().contains("EOF"));
    assert!(RedisJSON::from_str("[1,]", Format::JSON).is_err());
}

#[test]
fn parse_str_reads_first_element_of_bson() {
    let data = "\u{f}\0\0\0\u{2}a\0\u{3}\0\0\0hi\0\0";
    let v = RedisJSON::parse_str(data, Format::BSON).unwrap();
    assert_eq!(v, Node::String("hi".to_string()));
    let two = "\u{13}\0\0\0\u{10}n\0\u{7}\0\0\0\u{8}b\0\u{1}\0";
    assert_eq!(
        RedisJSON::parse_str(two, Format::BSON).unwrap(),
        Node::Number(Number::PosInt(7))
    );
    let empty = "\u{5}\0\0\0\0";
    assert_eq!(RedisJSON::parse_str(empty, Format::BSON).unwrap(), Node::Null);
    let e = RedisJSON::parse_str("\u{5}", Format::BSON).unwrap_err();
    assert_eq!(e.kind, ErrorKind::Parse);
}

#[test]
fn to_string_in_bson_is_not_there_yet() {
    let d = RedisJSON::from_str("1", Format::JSON).unwrap();
    let e = d.to_string("$", Format::BSON).unwrap_err();
    assert_eq!(e.to_string(), "Soon to come...");
    assert_eq!(d.to_string("$.a", Format::BSON).unwrap_err().to_string(), "ERR path does not exist");
}

#[test]
fn to_string_escapes_text() {
    let d = RedisJSON::from_value(Node::String("a\"b\n".to_string()));
    assert_eq!(d.to_string("$", Format::JSON).unwrap(), "\"a\\\"b\\n\"");
}

#[test]
fn to_json_lists_paths() {
    let d = RedisJSON::from_str("{\"a\":1,\"b\":[2]}", Format::JSON).unwrap();
    let mut paths = vec!["$.a".to_string(), "$.x".to_string(), "bad".to_string(), "$.b".to_string()];
    let out = d.to_json(&mut paths).unwrap();
    assert_eq!(out, "{\"$.a\":1,\"$.x\":null,\"bad\":null,\"$.b\":[2]}");
    assert!(paths.is_empty());
    let mut none: Vec<String> = vec![];
    assert_eq!(d.to_json(&mut none).unwrap(), "{}");
    let mut one = vec!["$".to_string()];
    assert_eq!(d.to_json(&mut one).unwrap(), "{\"$\":{\"a\":1,\"b\":[2]}}");
}

#[test]
fn lengths_and_types() {
    let s = slot("{\"s\":\"h\u{e9}\",\"a\":[1,2,3],\"o\":{\"x\":1,\"y\":2},\"n\":null}");
    assert_eq!(json_str_len(s.as_ref(), "$.s".to_string()).unwrap(), Some(3));
    assert_eq!(redisjson::commands::json_arr_len(s.as_ref(), "$.a".to_string()).unwrap(), Some(3));
    assert_eq!(json_obj_len(s.as_ref(), "$.o".to_string()).unwrap(), Some(2));
    assert_eq!(json_obj_len(s.as_ref(), ".".to_string()).unwrap(), Some(4));
    assert_eq!(json_type(s.as_ref(), "$.n".to_string()).unwrap(), Some("null".to_string()));
    assert_eq!(json_type(s.as_ref(), "a".to_string()).unwrap(), Some("array".to_string()));
    assert_eq!(
        json_obj_keys(s.as_ref(), "$".to_string()).unwrap(),
        Some(vec!["s".to_string(), "a".to_string(), "o".to_string(), "n".to_string()])
    );
    let e = json_str_len(s.as_ref(), "$.a".to_string()).unwrap_err();
    assert_eq!(e.kind, ErrorKind::TypeMismatch);
    assert_eq!(
        e.to_string(),
        "ERR wrong type of path value - expected string but found array"
    );
    assert_eq!(json_obj_len(s.as_ref(), "$.s".to_string()).unwrap_err().kind, ErrorKind::TypeMismatch);
    assert_eq!(json_obj_keys(s.as_ref(), "$.a".to_string()).unwrap_err().kind, ErrorKind::TypeMismatch);
    assert_eq!(json_type(s.as_ref(), "$.zz".to_string()).unwrap_err().to_string(), "ERR path does not exist");
}

#[test]
fn reads_of_an_empty_key_give_nothing() {
    let s: Option<RedisJSON> = None;
    assert_eq!(json_get(s.as_ref(), "$".to_string()).unwrap(), None);
    assert_eq!(json_type(s.as_ref(), "$".to_string()).unwrap(), None);
    assert_eq!(json_str_len(s.as_ref(), "$".to_string()).unwrap(), None);
    assert_eq!(json_obj_len(s.as_ref(), "$".to_string()).unwrap(), None);
    assert_eq!(json_obj_keys(s.as_ref(), "$".to_string()).unwrap(), None);
    assert_eq!(json_arr_index(s.as_ref(), "$".to_string(), "1", 0, usize::MAX).unwrap(), -1);
}

#[test]
fn writes_to_an_empty_key_fail() {
    let mut s: Option<RedisJSON> = None;
    let e = json_str_append(&mut s, "$".to_string(), "\"x\"".to_string()).unwrap_err();
    assert_eq!(e.kind, ErrorKind::Key);
    assert_eq!(
        e.to_string(),
        "ERR could not perform this operation on a key that doesn't exist"
    );
    assert_eq!(json_arr_pop(&mut s, "$".to_string(), None).unwrap_err().kind, ErrorKind::Key);
    assert_eq!(json_arr_trim(&mut s, "$".to_string(), 0, 1).unwrap_err().kind, ErrorKind::Key);
    assert_eq!(json_num_targets(s.as_ref(), "$".to_string()).unwrap_err().kind, ErrorKind::Key);
    assert_eq!(json_num_op(&mut s, "$".to_string(), vec![]).unwrap_err().kind, ErrorKind::Key);
    assert_eq!(json_del(&mut s, "$.a".to_string()).unwrap(), 0);
    assert!(s.is_none());
}

#[test]
fn set_on_an_empty_key() {
    let mut s: Option<RedisJSON> = None;
    let e = json_set(&mut s, "$.a".to_string(), "1", None, Format::JSON).unwrap_err();
    assert_eq!(e.kind, ErrorKind::Key);
    assert_eq!(e.to_string(), "ERR new objects must be created at the root");
    assert!(s.is_none());
    let xx = Some(redisjson::SetOptions::AlreadyExists);
    assert!(!json_set(&mut s, "$".to_string(), "1", xx, Format::JSON).unwrap());
    assert!(s.is_none());
    assert!(json_set(&mut s, "$".to_string(), "{", None, Format::JSON).is_err());
    let nx = Some(redisjson::SetOptions::NotExists);
    assert!(json_set(&mut s, "$".to_string(), "1", nx, Format::JSON).unwrap());
    assert_eq!(root(&s), "1");
}

#[test]
fn set_guards_on_a_document() {
    let mut d = RedisJSON::from_str("{\"a\":1}", Format::JSON).unwrap();
    assert!(!d.set_value("2", "$", &SetOptions::NotExists, Format::JSON).unwrap());
    assert!(!d.set_value("2", "$.a", &SetOptions::NotExists, Format::JSON).unwrap());
    assert!(!d.set_value("2", "$.b", &SetOptions::AlreadyExists, Format::JSON).unwrap());
    assert_eq!(d.to_string("$", Format::JSON).unwrap(), "{\"a\":1}");
    assert!(d.set_value("2", "$.a", &SetOptions::AlreadyExists, Format::JSON).unwrap());
    assert!(d.set_value("3", "$.b", &SetOptions::Always, Format::JSON).unwrap());
    assert_eq!(d.to_string("$", Format::JSON).unwrap(), "{\"a\":2,\"b\":3}");
    assert!(d.set_value("[4]", "$.*", &SetOptions::Always, Format::JSON).unwrap());
    assert_eq!(d.to_string("$", Format::JSON).unwrap(), "{\"a\":[4],\"b\":[4]}");
    assert!(d.set_value("5", "$", &SetOptions::AlreadyExists, Format::JSON).unwrap());
    assert_eq!(d.to_string("$", Format::JSON).unwrap(), "5");
    assert!(d.set_value("5", "$.a[", &SetOptions::Always, Format::JSON).is_err());
    assert!(d.set_value("nope", "$", &SetOptions::Always, Format::JSON).is_err());
    assert_eq!(d.to_string("$", Format::JSON).unwrap(), "5");
}

#[test]
fn delete_root_empties_the_key() {
    let mut s = slot("{\"a\":1}");
    assert_eq!(json_del(&mut s, ".".to_string()).unwrap(), 1);
    assert!(s.is_none());
}

#[test]
fn arr_index_finds_first_in_range() {
    let s = slot("{\"a\":[1,\"x\",1,null,true,1,[1],2.5]}");
    let at = |needle: &str, start: usize, end: usize| {
        json_arr_index(s.as_ref(), "$.a".to_string(), needle, start, end).unwrap()
    };
    assert_eq!(at("1", 0, usize::MAX), 0);
    assert_eq!(at("1", 1, usize::MAX), 2);
    assert_eq!(at("1", 3, 4), -1);
    assert_eq!(at("1", 3, 5), 5);
    assert_eq!(at("null", 0, 100), 3);
    assert_eq!(at("\"x\"", 0, 0), -1);
    assert_eq!(at("\"x\"", 5, 1), 1);
    assert_eq!(at("true", 100, 100), -1);
    assert_eq!(at("2.5", 100, 100), 7);
    assert_eq!(at("[1]", 0, usize::MAX), -1);
    assert_eq!(at("{}", 0, usize::MAX), -1);
    assert_eq!(at("3", 0, usize::MAX), -1);
    assert_eq!(json_arr_index(s.as_ref(), "$".to_string(), "1", 0, 9).unwrap(), -1);
    assert_eq!(json_arr_index(slot("[]").as_ref(), "$".to_string(), "1", 0, 9).unwrap(), -1);
    assert!(json_arr_index(s.as_ref(), "$.a".to_string(), "{", 0, 9).is_err());
    assert!(json_arr_index(s.as_ref(), "$.zz".to_string(), "1", 0, 9).is_err());
}

#[test]
fn insert_trim_and_append_reply_new_length() {
    let mut s = slot("{\"a\":[1,2,3],\"s\":\"ab\"}");
    let items = vec!["\"x\"".to_string(), "\"y\"".to_string()];
    assert_eq!(json_arr_insert(&mut s, "$.a".to_string(), 1, &items).unwrap(), 5);
    assert_eq!(root(&s), "{\"a\":[1,\"x\",\"y\",2,3],\"s\":\"ab\"}");
    assert_eq!(json_arr_trim(&mut s, "$.a".to_string(), 1, 2).unwrap(), 2);
    assert_eq!(root(&s), "{\"a\":[\"x\",\"y\"],\"s\":\"ab\"}");
    assert_eq!(json_str_append(&mut s, "s".to_string(), "\"\u{e9}\"".to_string()).unwrap(), 4);
    assert_eq!(json_get(s.as_ref(), "$.s".to_string()).unwrap(), Some("\"ab\u{e9}\"".to_string()));
    let bad = vec!["1".to_string(), "{".to_string()];
    let e = json_arr_insert(&mut s, "$.a".to_string(), 0, &bad).unwrap_err();
    assert_eq!(e.kind, ErrorKind::Parse);
    let e = json_arr_insert(&mut s, "$.zz".to_string(), 0, &items).unwrap_err();
    assert_eq!(e.to_string(), "ERR path does not exist");
    assert_eq!(root(&s), "{\"a\":[\"x\",\"y\"],\"s\":\"ab\u{e9}\"}");
}

#[test]
fn trim_keeps_the_item_at_stop() {
    let mut s = slot("{\"b\":[1,2,3,4,5]}");
    assert_eq!(json_arr_trim(&mut s, "$.b".to_string(), 1, 3).unwrap(), 3);
    assert_eq!(root(&s), "{\"b\":[2,3,4]}");
    assert_eq!(json_arr_trim(&mut s, "$.b".to_string(), 0, 100).unwrap(), 3);
    assert_eq!(root(&s), "{\"b\":[2,3,4]}");
    assert_eq!(json_arr_trim(&mut s, "$.b".to_string(), 5, 2).unwrap(), 1);
    assert_eq!(root(&s), "{\"b\":[4]}");
    let e = json_arr_trim(&mut s, "$.zz".to_string(), 0, 1).unwrap_err();
    assert_eq!(e.to_string(), "ERR path does not exist");
}

#[test]
fn str_append_reads_its_argument_as_json() {
    let mut s = slot("{\"s\":\"foo\"}");
    assert_eq!(json_str_append(&mut s, "$.s".to_string(), "\"bar\"".to_string()).unwrap(), 6);
    assert_eq!(root(&s), "{\"s\":\"foobar\"}");
    assert_eq!(json_str_append(&mut s, "$.s".to_string(), "\"\\n\"".to_string()).unwrap(), 7);
    assert_eq!(root(&s), "{\"s\":\"foobar\\n\"}");
    let e = json_str_append(&mut s, "$.s".to_string(), "bar".to_string()).unwrap_err();
    assert_eq!(e.kind, ErrorKind::Parse);
    let e = json_str_append(&mut s, "$.s".to_string(), "12".to_string()).unwrap_err();
    assert_eq!(e.kind, ErrorKind::TypeMismatch);
    assert_eq!(
        e.to_string(),
        "ERR wrong type of path value - expected string but found number"
    );
    let e = json_str_append(&mut s, "$".to_string(), "\"x\"".to_string()).unwrap_err();
    assert_eq!(
        e.to_string(),
        "ERR wrong type of path value - expected string but found object"
    );
    let e = json_str_append(&mut s, "$.zz".to_string(), "\"x\"".to_string()).unwrap_err();
    assert_eq!(e.to_string(), "ERR path does not exist");
    assert_eq!(root(&s), "{\"s\":\"foobar\\n\"}");
}

#[test]
fn pop_replies_item_of_last_match() {
    let mut s = slot("{\"a\":[1,2],\"b\":[3,4]}");
    assert_eq!(json_arr_pop(&mut s, "$.*".to_string(), Some(0)).unwrap(), "3");
    assert_eq!(root(&s), "{\"a\":[2],\"b\":[4]}");
    assert_eq!(json_arr_pop(&mut s, "$.a".to_string(), None).unwrap(), "2");
    let e = json_arr_pop(&mut s, "$.a".to_string(), None).unwrap_err();
    assert_eq!(e.kind, ErrorKind::Range);
    let e = json_arr_pop(&mut s, "$.zz".to_string(), None).unwrap_err();
    assert_eq!(e.to_string(), "ERR path does not exist");
    assert_eq!(root(&s), "{\"a\":[],\"b\":[4]}");
}

#[test]
fn num_op_rejects_what_is_not_finite() {
    let mut s = slot("{\"a\":1,\"b\":\"x\"}");
    let e = json_num_op(&mut s, "$.a".to_string(), vec![NumResult::NotFinite]).unwrap_err();
    assert_eq!(e.kind, ErrorKind::Arithmetic);
    assert_eq!(root(&s), "{\"a\":1,\"b\":\"x\"}");
    let e = json_num_op(
        &mut s,
        "$.b".to_string(),
        vec![NumResult::Finite(Number::PosInt(2))],
    ).unwrap_err();
    assert_eq!(e.kind, ErrorKind::TypeMismatch);
    assert_eq!(json_num_targets(s.as_ref(), "$.*".to_string()).unwrap(), vec![Some(Number::PosInt(1)), None]);
    let reply = json_num_op(
        &mut s,
        "$.a".to_string(),
        vec![NumResult::Finite(Number::Float("0.5".to_string()))],
    ).unwrap();
    assert_eq!(reply, "0.5");
    assert_eq!(root(&s), "{\"a\":0.5,\"b\":\"x\"}");
    let e = json_num_op(&mut s, "$.zz".to_string(), vec![]).unwrap_err();
    assert_eq!(e.to_string(), "ERR path does not exist");
}

#[test]
fn mget_replies_for_each_key() {
    let slots = vec![slot("{\"a\":1}"), None, slot("{\"b\":2}"), slot("{\"a\":[3]}")];
    assert_eq!(
        json_mget(&slots.iter().map(|s| s.as_ref()).collect(), "a".to_string()).unwrap(),
        vec![Some("1".to_string()), None, None, Some("[3]".to_string())]
    );
    assert!(json_mget(&slots.iter().map(|s| s.as_ref()).collect(), "$[".to_string()).is_err());
    assert_eq!(json_mget(&vec![], "$".to_string()).unwrap(), Vec::<Option<String>>::new());
}

#[test]
fn save_then_load_gives_the_same_text() {
    assert_eq!(JSON_TYPE_ENCODING_VERSION, 2);
    let d = RedisJSON::from_str("{\"a\":[1,-2,3.25,\"s\",null,true],\"b\":{}}", Format::JSON).unwrap();
    let saved = json_rdb_save(&d).unwrap();
    assert_eq!(saved, "{\"a\":[1,-2,3.25,\"s\",null,true],\"b\":{}}");
    let back = json_rdb_load(Stored::Text(saved.clone()), 2).unwrap();
    assert_eq!(json_rdb_save(&back).unwrap(), saved);
    assert_eq!(back.root(), d.root());
}

#[test]
fn load_by_version() {
    let legacy = json_rdb_load(Stored::Legacy(Node::Bool(true)), 0).unwrap();
    assert_eq!(legacy.root(), &Node::Bool(true));
    let current = json_rdb_load(Stored::Text("[1]".to_string()), 2).unwrap();
    assert_eq!(json_rdb_save(&current).unwrap(), "[1]");
    let e = json_rdb_load(Stored::Text("1".to_string()), 0).unwrap_err();
    assert_eq!(e.to_string(), "Can't load old RedisJSON RDB");
    assert!(json_rdb_load(Stored::Legacy(Node::Null), 2).is_err());
    let e = json_rdb_load(Stored::Text("{".to_string()), 2).unwrap_err();
    assert_eq!(e.kind, ErrorKind::Parse);
}
