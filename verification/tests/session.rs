use redisjson::commands::{
    json_arr_append, json_arr_len, json_arr_pop, json_del, json_get, json_num_op,
    json_num_targets, json_set,
};
use redisjson::ops::NumResult;
use redisjson::redisjson::{Format, RedisJSON};
use redisjson::value::Number;
use redisjson::SetOptions;

fn sample() -> Option<RedisJSON> {
    let mut slot: Option<RedisJSON> = None;
    let set = json_set(
        &mut slot,
        "$".to_string(),
        "{\"a\":1,\"b\":[1,2,3]}",
        None,
        Format::JSON,
    );
    assert_eq!(set.unwrap(), true);
    slot
}

fn plus(n: &Number, by: f64) -> NumResult {
    let x = match n {
        Number::PosInt(u) => *u as f64,
        Number::NegInt(i) => *i as f64,
        Number::Float(s) => s.parse::<f64>().unwrap(),
    } + by;
    if !x.is_finite() {
        NumResult::NotFinite
    } else if x.fract() == 0.0 && x >= 0.0 && x < 1.8e19 {
        NumResult::Finite(Number::PosInt(x as u64))
    } else if x.fract() == 0.0 && x < 0.0 && x > -9.2e18 {
        NumResult::Finite(Number::NegInt(x as i64))
    } else {
        NumResult::Finite(Number::Float(format!("{:?}", x)))
    }
}

#[test]
fn set_root_then_get_member() {
    let slot = sample();
    let got = json_get(slot.as_ref(), "$.b".to_string()).unwrap();
    assert_eq!(got, Some("[1,2,3]".to_string()));
}

#[test]
fn append_then_get() {
    let mut slot = sample();
    let len = json_arr_append(&mut slot, "$.b".to_string(), &vec!["4".to_string()]).unwrap();
    assert_eq!(len, 4);
    let got = json_get(slot.as_ref(), "$.b".to_string()).unwrap();
    assert_eq!(got, Some("[1,2,3,4]".to_string()));
}

#[test]
fn pop_then_length() {
    let mut slot = sample();
    json_arr_append(&mut slot, "$.b".to_string(), &vec!["4".to_string()]).unwrap();
    let popped = json_arr_pop(&mut slot, "$.b".to_string(), Some(-1)).unwrap();
    assert_eq!(popped, "4");
    assert_eq!(json_arr_len(slot.as_ref(), "$.b".to_string()).unwrap(), Some(3));
}

#[test]
fn increment_number() {
    let mut slot = sample();
    let targets = json_num_targets(slot.as_ref(), "$.a".to_string()).unwrap();
    assert_eq!(targets, vec![Some(Number::PosInt(1))]);
    let results: Vec<NumResult> = targets.iter().map(|t| plus(t.as_ref().unwrap(), 2.0)).collect();
    let reply = json_num_op(&mut slot, "$.a".to_string(), results).unwrap();
    assert_eq!(reply, "3");
    assert_eq!(json_get(slot.as_ref(), "$.a".to_string()).unwrap(), Some("3".to_string()));
}

#[test]
fn set_new_member_only_once() {
    let mut slot = sample();
    let first = json_set(
        &mut slot,
        "$.c".to_string(),
        "5",
        Some(SetOptions::NotExists),
        Format::JSON,
    );
    assert_eq!(first.unwrap(), true);
    let second = json_set(
        &mut slot,
        "$.c".to_string(),
        "9",
        Some(SetOptions::NotExists),
        Format::JSON,
    );
    assert_eq!(second.unwrap(), false);
    assert_eq!(json_get(slot.as_ref(), "$.c".to_string()).unwrap(), Some("5".to_string()));
}

#[test]
fn delete_member_then_get() {
    let mut slot = sample();
    assert_eq!(json_del(&mut slot, "$.a".to_string()).unwrap(), 1);
    assert_eq!(json_get(slot.as_ref(), "$.a".to_string()).unwrap(), None);
    assert_eq!(
        json_get(slot.as_ref(), "$".to_string()).unwrap(),
        Some("{\"b\":[1,2,3]}".to_string())
    );
}
