use redisjson::error::ErrorKind;
use redisjson::ops::{
    arr_append, arr_insert, arr_pop, arr_pop_value, arr_trim, num_store, str_append, NumResult,
    Update,
};
use redisjson::redisjson::{Format, RedisJSON};
use redisjson::value::{Node, Number};

fn node(text: &str) -> Node {
    RedisJSON::parse_str(text, Format::JSON).unwrap()
}

fn nodes(texts: &[&str]) -> Vec<Node> {
    texts.iter().map(|t| node(t)).collect()
}

fn text(n: &Node) -> String {
    RedisJSON::from_value(n.clone()).to_string("$", Format::JSON).unwrap()
}

#[test]
fn value_names_of_all_types() {
    assert_eq!(node("null").value_name(), "null");
    assert_eq!(node("true").value_name(), "boolean");
    assert_eq!(node("1").value_name(), "number");
    assert_eq!(node("\"s\"").value_name(), "string");
    assert_eq!(node("[]").value_name(), "array");
    assert_eq!(node("{}").value_name(), "object");
    assert_eq!(RedisJSON::value_name(&Node::Bool(false)), "boolean");
}

#[test]
fn numbers_keep_their_representation() {
    assert_eq!(node("7"), Node::Number(Number::PosInt(7)));
    assert_eq!(node("-7"), Node::Number(Number::NegInt(-7)));
    assert_eq!(node("18446744073709551615"), Node::Number(Number::PosInt(u64::MAX)));
    assert_eq!(node("1.5"), Node::Number(Number::Float("1.5".to_string())));
    assert_eq!(text(&node("1.5")), "1.5");
    assert_eq!(text(&node("1e2")), "100.0");
    assert_eq!(text(&node("-0.25")), "-0.25");
    assert_eq!(text(&Node::Number(Number::NegInt(5))), "5");
}

#[test]
fn same_number_compares_value_and_representation() {
    assert!(Number::PosInt(5).same(&Number::NegInt(5)));
    assert!(Number::NegInt(-5).same(&Number::NegInt(-5)));
    assert!(!Number::PosInt(5).same(&Number::Float("5.0".to_string())));
    assert!(!Number::PosInt(u64::MAX).same(&Number::NegInt(-1)));
    assert!(Number::Float("1.5".to_string()).same(&Number::Float("1.5".to_string())));
}

#[test]
fn clone_copies_the_tree() {
    let n = node("{\"a\":[1,{\"b\":\"c\"},null,true,2.5]}");
    assert_eq!(n.clone(), n);
}

#[test]
fn matches_scalar_only_for_scalars() {
    assert!(node("1").matches_scalar(&node("1")));
    assert!(!node("1").matches_scalar(&node("2")));
    assert!(!node("1").matches_scalar(&node("\"1\"")));
    assert!(node("null").matches_scalar(&node("null")));
    assert!(node("\"a\"").matches_scalar(&node("\"a\"")));
    assert!(node("false").matches_scalar(&node("false")));
    assert!(!node("[1]").matches_scalar(&node("[1]")));
    assert!(!node("{}").matches_scalar(&node("{}")));
    assert!(!node("[]").matches_scalar(&node("1")));
}

#[test]
fn str_append_concatenates() {
    let made = str_append(&node("\"foo\""), &"bar".to_string()).unwrap();
    assert_eq!(made, Node::String("foobar".to_string()));
    let e = str_append(&node("1"), &"bar".to_string()).unwrap_err();
    assert_eq!(e.kind, ErrorKind::TypeMismatch);
    assert_eq!(
        e.to_string(),
        "ERR wrong type of path value - expected string but found number"
    );
}

#[test]
fn arr_append_keeps_argument_order() {
    let made = arr_append(&node("[1]"), &nodes(&["2", "\"x\"", "[3]"])).unwrap();
    assert_eq!(text(&made), "[1,2,\"x\",[3]]");
    let e = arr_append(&node("{}"), &nodes(&["2"])).unwrap_err();
    assert_eq!(
        e.to_string(),
        "ERR wrong type of path value - expected array but found object"
    );
}

#[test]
fn arr_insert_at_positions() {
    let arr = node("[1,2,3]");
    assert_eq!(text(&arr_insert(&arr, 0, &nodes(&["8", "9"])).unwrap()), "[8,9,1,2,3]");
    assert_eq!(text(&arr_insert(&arr, 2, &nodes(&["8", "9"])).unwrap()), "[1,2,8,9,3]");
    assert_eq!(text(&arr_insert(&arr, -1, &nodes(&["8"])).unwrap()), "[1,2,8,3]");
    assert_eq!(text(&arr_insert(&arr, -2, &nodes(&["8"])).unwrap()), "[1,8,2,3]");
}

#[test]
fn arr_insert_rejects_index_at_or_beyond_length() {
    let arr = node("[1,2,3]");
    for index in [3, 4, -3, -4, i64::MAX, i64::MIN] {
        let e = arr_insert(&arr, index, &nodes(&["8"])).unwrap_err();
        assert_eq!(e.kind, ErrorKind::Range);
        assert_eq!(e.to_string(), "ERR index out of bounds");
    }
    assert!(arr_insert(&node("[]"), 0, &nodes(&["8"])).is_err());
    let e = arr_insert(&node("\"s\""), 0, &nodes(&["8"])).unwrap_err();
    assert_eq!(e.kind, ErrorKind::TypeMismatch);
}

#[test]
fn arr_pop_positions() {
    let arr = node("[1,2,3]");
    assert_eq!(text(&arr_pop(&arr, i64::MAX).unwrap()), "[1,2]");
    assert_eq!(text(&arr_pop_value(&arr, i64::MAX).unwrap()), "3");
    assert_eq!(text(&arr_pop(&arr, 0).unwrap()), "[2,3]");
    assert_eq!(text(&arr_pop_value(&arr, 0).unwrap()), "1");
    assert_eq!(text(&arr_pop(&arr, -1).unwrap()), "[1,2]");
    assert_eq!(text(&arr_pop(&arr, -2).unwrap()), "[1,3]");
    assert_eq!(text(&arr_pop_value(&arr, -2).unwrap()), "2");
    assert_eq!(text(&arr_pop(&arr, 7).unwrap()), "[1,2]");
    assert_eq!(text(&arr_pop(&arr, -7).unwrap()), "[2,3]");
    assert_eq!(text(&arr_pop_value(&arr, i64::MIN).unwrap()), "1");
}

#[test]
fn arr_pop_of_empty_array_fails() {
    let e = arr_pop(&node("[]"), 0).unwrap_err();
    assert_eq!(e.kind, ErrorKind::Range);
    assert_eq!(e.to_string(), "ERR index out of bounds");
    assert_eq!(arr_pop_value(&node("[]"), -1).unwrap_err().kind, ErrorKind::Range);
    let e = arr_pop(&node("1"), 0).unwrap_err();
    assert_eq!(
        e.to_string(),
        "ERR wrong type of path value - expected array but found number"
    );
}

#[test]
fn arr_trim_ranges() {
    let arr = node("[0,1,2,3,4]");
    assert_eq!(text(&arr_trim(&arr, 1, 3).unwrap()), "[1,2,3]");
    assert_eq!(text(&arr_trim(&arr, 0, 4).unwrap()), "[0,1,2,3,4]");
    assert_eq!(text(&arr_trim(&arr, 0, 100).unwrap()), "[0,1,2,3,4]");
    assert_eq!(text(&arr_trim(&arr, 3, usize::MAX).unwrap()), "[3,4]");
    assert_eq!(text(&arr_trim(&arr, 2, 2).unwrap()), "[2]");
    assert_eq!(text(&arr_trim(&arr, 0, 0).unwrap()), "[0]");
    assert_eq!(text(&arr_trim(&arr, 4, 4).unwrap()), "[4]");
    assert_eq!(text(&arr_trim(&node("[7]"), 0, 0).unwrap()), "[7]");
    assert_eq!(text(&arr_trim(&node("[]"), 0, 3).unwrap()), "[]");
    assert_eq!(arr_trim(&node("{}"), 0, 3).unwrap_err().kind, ErrorKind::TypeMismatch);
}

#[test]
fn arr_trim_start_beyond_stop_is_pulled_down() {
    let arr = node("[0,1,2,3,4]");
    assert_eq!(arr_trim(&arr, 3, 1).unwrap(), arr_trim(&arr, 1, 1).unwrap());
    assert_eq!(text(&arr_trim(&arr, 3, 1).unwrap()), "[1]");
    assert_eq!(arr_trim(&arr, 9, 2).unwrap(), arr_trim(&arr, 2, 2).unwrap());
    assert_eq!(text(&arr_trim(&arr, 9, 2).unwrap()), "[2]");
    assert_eq!(text(&arr_trim(&arr, 9, 9).unwrap()), "[4]");
}

#[test]
fn num_store_takes_result_by_ordinal() {
    let results = vec![
        NumResult::Finite(Number::PosInt(3)),
        NumResult::NotFinite,
        NumResult::Finite(Number::Float("2.5".to_string())),
    ];
    assert_eq!(num_store(&node("1"), 0, &results).unwrap(), Node::Number(Number::PosInt(3)));
    assert_eq!(text(&num_store(&node("1"), 2, &results).unwrap()), "2.5");
    let e = num_store(&node("1"), 1, &results).unwrap_err();
    assert_eq!(e.kind, ErrorKind::Arithmetic);
    assert_eq!(e.to_string(), "ERR cannot represent result as Number");
    let e = num_store(&node("1"), 3, &results).unwrap_err();
    assert_eq!(e.kind, ErrorKind::Range);
    let e = num_store(&node("\"1\""), 0, &results).unwrap_err();
    assert_eq!(
        e.to_string(),
        "ERR wrong type of path value - expected number but found string"
    );
}

#[test]
fn value_op_replaces_every_match() {
    let mut d = RedisJSON::from_str("{\"a\":[1],\"b\":[2,3]}", Format::JSON).unwrap();
    let last = d.value_op("$.*", &Update::ArrAppend(nodes(&["9"]))).unwrap();
    assert_eq!(text(&last), "[2,3,9]");
    assert_eq!(d.to_string("$", Format::JSON).unwrap(), "{\"a\":[1,9],\"b\":[2,3,9]}");
}

#[test]
fn value_op_without_match_gives_null() {
    let mut d = RedisJSON::from_str("{\"a\":[1]}", Format::JSON).unwrap();
    let last = d.value_op("$.x", &Update::ArrPop(0)).unwrap();
    assert_eq!(last, Node::Null);
    assert_eq!(d.to_string("$", Format::JSON).unwrap(), "{\"a\":[1]}");
}

#[test]
fn value_op_failure_changes_nothing() {
    let mut d = RedisJSON::from_str("{\"a\":\"x\",\"b\":2,\"c\":\"y\"}", Format::JSON).unwrap();
    let e = d.value_op("$.*", &Update::StrAppend("!".to_string())).unwrap_err();
    assert_eq!(e.kind, ErrorKind::TypeMismatch);
    assert_eq!(
        e.to_string(),
        "ERR wrong type of path value - expected string but found number"
    );
    assert_eq!(d.to_string("$", Format::JSON).unwrap(), "{\"a\":\"x\",\"b\":2,\"c\":\"y\"}");
}

#[test]
fn value_op_joins_several_failures() {
    let mut d = RedisJSON::from_str("{\"a\":1,\"b\":\"s\",\"c\":[]}", Format::JSON).unwrap();
    let e = d.value_op("$.*", &Update::StrAppend("!".to_string())).unwrap_err();
    assert_eq!(e.kind, ErrorKind::Compound);
    assert_eq!(
        e.to_string(),
        "ERR wrong type of path value - expected string but found number\
         ERR wrong type of path value - expected string but found array"
    );
    assert_eq!(d.to_string("$", Format::JSON).unwrap(), "{\"a\":1,\"b\":\"s\",\"c\":[]}");
}

#[test]
fn value_op_at_root() {
    let mut d = RedisJSON::from_str("\"ab\"", Format::JSON).unwrap();
    let last = d.value_op("$", &Update::StrAppend("cd".to_string())).unwrap();
    assert_eq!(last, Node::String("abcd".to_string()));
    assert_eq!(d.root(), &Node::String("abcd".to_string()));
}

#[test]
fn value_op_rejects_malformed_path() {
    let mut d = RedisJSON::from_str("[1]", Format::JSON).unwrap();
    let e = d.value_op("a", &Update::ArrPop(0)).unwrap_err();
    assert_eq!(e.kind, ErrorKind::Path);
    assert_eq!(d.to_string("$", Format::JSON).unwrap(), "[1]");
}
